use aci_ddb::assets::{homepage_assets, pick_facebook_url, pick_logo, ClubMedia};
use aci_ddb::bindings::{
    club_slugs, clubs_with_microsites, default_overrides, ClubNumberRow, CmsNode, OverridePair,
    PathAlias,
};
use aci_ddb::cmd::{PagesCmd, SelectError};
use aci_ddb::media::{extract_media_urls, storage_refs_of};
use aci_ddb::menu::{homepage_menu_reference, MenuLink};
use aci_ddb::pages::{
    append_featured, featured_pages_content, fuse_body, FeaturedPageRow, MicrositePage, PageRow,
};
use aci_ddb::site::{pages_for_club, NodeRow, SiteStore};
use aci_ddb::uri::{avatar_uri_to_path, drupal_uri_to_path};

fn s(v: &str) -> String {
    v.to_string()
}

fn node(nid: u64, node_type: &str, title: &str) -> CmsNode {
    CmsNode { nid, node_type: s(node_type), title: s(title) }
}

fn page_node(nid: u64, title: &str) -> NodeRow {
    NodeRow {
        nid,
        title: s(title),
        page_title: None,
        body_value: None,
        summary_value: None,
        field_body_value: None,
        status: 1,
        hero_image_uri: None,
        nav_image_uri: None,
    }
}

fn link(id: u64, uuid: &str, target: u64, title: &str, weight: i32, parent: &str) -> MenuLink {
    MenuLink {
        id,
        uuid: s(uuid),
        link_uri: format!("entity:node/{target}"),
        menu_name: s("microsites"),
        title: Some(s(title)),
        weight,
        parent: s(parent),
        enabled: true,
    }
}

fn paragraph(host: u64, delta: u32, headline: Option<&str>) -> FeaturedPageRow {
    FeaturedPageRow {
        host_nid: host,
        delta,
        headline: headline.map(s),
        summary_text_2: None,
        button_uri: None,
        button_title: None,
        image_uri: None,
    }
}

fn empty_page(body: &str) -> MicrositePage {
    MicrositePage {
        nid: 1,
        title: s("T"),
        body_html: s(body),
        status: true,
        menu_id: None,
        menu_title: None,
        menu_weight: None,
        menu_parent: None,
        hero_image: None,
        nav_image: None,
    }
}

#[test]
fn test_extract_media_urls() {
    let html = r#"
            <img src="/sites/default/files/images/photo.jpg">
            <a href="/sites/default/files/docs/manual.pdf">Download</a>
            <img src="https://example.com/external.jpg">
        "#;

    let urls = extract_media_urls(html);
    assert_eq!(urls.len(), 2);
    assert!(urls.contains(&"/sites/default/files/images/photo.jpg".to_string()));
    assert!(urls.contains(&"/sites/default/files/docs/manual.pdf".to_string()));
}

#[test]
fn test_extract_media_urls_empty() {
    let html = "<p>No media here</p>";
    let urls = extract_media_urls(html);
    assert!(urls.is_empty());
}

#[test]
fn test_drupal_uri_to_path() {
    assert_eq!(
        drupal_uri_to_path("public://2025-06/IMG_4377.jpeg"),
        Some("/sites/default/files/2025-06/IMG_4377.jpeg".to_string())
    );
    assert_eq!(drupal_uri_to_path("private://secret.pdf"), None);
    assert_eq!(drupal_uri_to_path("not-a-uri"), None);
}

#[test]
fn rewrite_public_example() {
    assert_eq!(drupal_uri_to_path("public://a/b.jpg"), Some(s("/sites/default/files/a/b.jpg")));
    assert_eq!(avatar_uri_to_path("public://pictures/x.png"), Some(s("/sites/default/files/pictures/x.png")));
    assert_eq!(avatar_uri_to_path("private://pictures/x.png"), None);
    assert_eq!(drupal_uri_to_path("xpublic://a"), None);
}

#[test]
fn extract_keeps_order_duplicates_and_single_quotes() {
    let html = "<a href='/sites/default/files/a.pdf' class=\"x\">a</a><img src=\"/sites/default/files/b.png\"><img src='/sites/default/files/a.pdf'>";
    let urls = extract_media_urls(html);
    assert_eq!(
        urls,
        vec![s("/sites/default/files/a.pdf"), s("/sites/default/files/b.png"), s("/sites/default/files/a.pdf")]
    );
    assert_eq!(extract_media_urls(html), urls);
    for u in &urls {
        assert!(html.contains(u.as_str()));
        assert!(u.contains("/sites/default/files/"));
    }
}

#[test]
fn extract_full_url_prefix_kept() {
    let html = r#"<img src="https://cms.example.org/sites/default/files/p.jpg" alt="">"#;
    assert_eq!(extract_media_urls(html), vec![s("https://cms.example.org/sites/default/files/p.jpg")]);
}

#[test]
fn fuse_summary_only() {
    assert_eq!(fuse_body(&Some(s("S")), &None, &None), "S");
}

#[test]
fn fuse_body_and_extra() {
    assert_eq!(fuse_body(&None, &Some(s("B")), &Some(s("E"))), "B\n\nE");
}

#[test]
fn fuse_nothing() {
    assert_eq!(fuse_body(&None, &None, &None), "");
}

#[test]
fn fuse_all_three_and_skip_middle() {
    assert_eq!(fuse_body(&Some(s("S")), &Some(s("B")), &Some(s("E"))), "S\n\nB\n\nE");
    assert_eq!(fuse_body(&Some(s("S")), &None, &Some(s("E"))), "S\n\nE");
}

#[test]
fn page_from_row_uses_override_title() {
    let row = PageRow {
        nid: 7,
        title: s("Base"),
        page_title: Some(s("Override")),
        body_value: Some(s("B")),
        summary_value: Some(s("S")),
        field_body_value: None,
        status: 1,
        menu_id: Some(3),
        menu_title: Some(s("Menu")),
        menu_weight: Some(-2),
        menu_parent: Some(s("p")),
        hero_image_uri: Some(s("public://h.jpg")),
        nav_image_uri: None,
    };
    let page = MicrositePage::from_row(row);
    assert_eq!(page.title, "Override");
    assert_eq!(page.body_html, "S\n\nB");
    assert!(page.status);
    assert_eq!(page.menu_weight, Some(-2));
    assert_eq!(page.hero_image, Some(s("public://h.jpg")));
}

#[test]
fn headline_only_paragraph() {
    let rows = vec![paragraph(1, 0, Some("Welcome"))];
    assert_eq!(featured_pages_content(&rows), "<h3>Welcome</h3>\n");
    let mut page = empty_page("Body");
    append_featured(&mut page, featured_pages_content(&rows));
    assert_eq!(page.body_html, "Body\n\n<h3>Welcome</h3>\n");
}

#[test]
fn no_paragraphs_keep_body() {
    let rows: Vec<FeaturedPageRow> = Vec::new();
    assert_eq!(featured_pages_content(&rows), "");
    let mut page = empty_page("Body");
    append_featured(&mut page, featured_pages_content(&rows));
    assert_eq!(page.body_html, "Body");
    let mut blank = empty_page("");
    append_featured(&mut blank, s("<p>x</p>\n"));
    assert_eq!(blank.body_html, "<p>x</p>\n");
}

#[test]
fn full_paragraph_markup_order() {
    let p = FeaturedPageRow {
        host_nid: 1,
        delta: 0,
        headline: Some(s("H")),
        summary_text_2: Some(s("<p>t</p>")),
        button_uri: Some(s("https://x.org")),
        button_title: None,
        image_uri: Some(s("public://i.png")),
    };
    assert_eq!(
        featured_pages_content(&vec![p]),
        "<p><img src=\"/sites/default/files/i.png\" alt=\"\"></p>\n<h3>H</h3>\n<p>t</p>\n<p><a href=\"https://x.org\">https://x.org</a></p>\n"
    );
    let q = FeaturedPageRow {
        host_nid: 1,
        delta: 1,
        headline: None,
        summary_text_2: None,
        button_uri: Some(s("/join")),
        button_title: Some(s("Join")),
        image_uri: Some(s("private://i.png")),
    };
    assert_eq!(featured_pages_content(&vec![q]), "<p><a href=\"/join\">Join</a></p>\n");
}

#[test]
fn title_and_override_bindings() {
    let nodes = vec![
        node(1, "ssp_club", "X"),
        node(2, "ssp_club", "Y"),
        node(10, "microsite_homepage", "X"),
        node(20, "microsite_homepage", "Z"),
    ];
    let numbers = vec![ClubNumberRow { entity_id: 2, value: 5 }, ClubNumberRow { entity_id: 1, value: 9 }];
    let overrides = vec![OverridePair { club_nid: 2, homepage_nid: 20 }];
    let b = clubs_with_microsites(&nodes, &numbers, &overrides);
    assert_eq!(b.len(), 2);
    assert_eq!((b[0].club_nid, b[0].homepage_nid, b[0].club_number), (2, 20, Some(5)));
    assert_eq!(b[0].club_name, "Y");
    assert_eq!((b[1].club_nid, b[1].homepage_nid, b[1].club_number), (1, 10, Some(9)));
    assert!(!b[1].is_intraclub);
}

#[test]
fn intraclubs_last_then_by_name_and_no_repeats() {
    let nodes = vec![
        node(1, "ssp_club", "Zeta"),
        node(2, "ssp_club", "Alpha"),
        node(3, "ssp_club", "Mid"),
        node(10, "microsite_homepage", "Zeta"),
        node(11, "microsite_homepage", "Alpha"),
        node(12, "microsite_homepage", "Mid"),
    ];
    let numbers = vec![ClubNumberRow { entity_id: 3, value: 40 }];
    let overrides = vec![OverridePair { club_nid: 3, homepage_nid: 12 }, OverridePair { club_nid: 10, homepage_nid: 1 }];
    let b = clubs_with_microsites(&nodes, &numbers, &overrides);
    let got: Vec<(u64, u64, bool)> = b.iter().map(|c| (c.club_nid, c.homepage_nid, c.is_intraclub)).collect();
    assert_eq!(got, vec![(3, 12, false), (2, 11, true), (1, 10, true)]);
}

#[test]
fn default_override_pairs() {
    let o = default_overrides();
    assert_eq!(o.len(), 2);
    assert_eq!((o[0].club_nid, o[0].homepage_nid), (51008, 55629));
    assert_eq!((o[1].club_nid, o[1].homepage_nid), (47596, 50698));
}

#[test]
fn slugs_strip_leading_slashes() {
    let nodes = vec![node(1, "ssp_club", "X"), node(10, "microsite_homepage", "X"), node(2, "ssp_club", "Q"), node(20, "microsite_homepage", "R")];
    let overrides = vec![OverridePair { club_nid: 2, homepage_nid: 20 }];
    let aliases = vec![
        PathAlias { path: s("/node/10"), alias: s("/x-club") },
        PathAlias { path: s("/node/20"), alias: s("//r-club") },
        PathAlias { path: s("/node/100"), alias: s("/other") },
        PathAlias { path: s("/node/10"), alias: s("/x-club") },
    ];
    let slugs = club_slugs(&nodes, &overrides, &aliases);
    let got: Vec<(u64, String)> = slugs.into_iter().map(|c| (c.club_nid, c.slug)).collect();
    assert_eq!(got, vec![(1, s("x-club")), (2, s("r-club"))]);
}

#[test]
fn menu_reference_of_homepage() {
    let links = vec![link(5, "u-1", 100, "Home", 0, "")];
    assert_eq!(homepage_menu_reference(&links, 100), Some(s("menu_link_content:u-1")));
    assert_eq!(homepage_menu_reference(&links, 10), None);
    let mut other = links;
    other[0].menu_name = s("main");
    assert_eq!(homepage_menu_reference(&other, 100), None);
}

#[test]
fn end_to_end_weight_orders_children() {
    let store = SiteStore {
        nodes: vec![page_node(100, "Home"), page_node(200, "About"), page_node(300, "Contact")],
        links: vec![
            link(1, "m1", 100, "Home", 0, ""),
            link(2, "l2", 200, "About", 1, "menu_link_content:m1"),
            link(3, "l3", 300, "Contact", 0, "menu_link_content:m1"),
        ],
        paragraphs: Vec::new(),
    };
    let pages = pages_for_club(100, &store);
    let nids: Vec<u64> = pages.iter().map(|p| p.nid).collect();
    assert_eq!(nids, vec![100, 300, 200]);
    assert_eq!(pages[1].title, "Contact");
    assert_eq!(pages[1].menu_weight, Some(0));
    assert_eq!(pages[2].menu_parent, Some(s("menu_link_content:m1")));
}

#[test]
fn homepage_without_menu_entry() {
    let store = SiteStore {
        nodes: vec![page_node(100, "Home"), page_node(200, "About")],
        links: vec![link(2, "l2", 200, "About", 1, "menu_link_content:m1")],
        paragraphs: Vec::new(),
    };
    let pages = pages_for_club(100, &store);
    assert_eq!(pages.len(), 1);
    assert_eq!(pages[0].nid, 100);
    assert_eq!(pages[0].menu_id, None);
}

#[test]
fn disabled_children_skipped_and_ties_by_title() {
    let mut off = link(4, "l4", 400, "Hidden", 0, "menu_link_content:m1");
    off.enabled = false;
    let store = SiteStore {
        nodes: vec![page_node(100, "Home"), page_node(200, "Beta"), page_node(300, "Alpha"), page_node(400, "Hidden")],
        links: vec![
            link(1, "m1", 100, "Home", 0, ""),
            link(2, "l2", 200, "Beta", 0, "menu_link_content:m1"),
            link(3, "l3", 300, "Alpha", 0, "menu_link_content:m1"),
            off,
        ],
        paragraphs: vec![paragraph(300, 2, Some("Second")), paragraph(300, 1, Some("First")), paragraph(200, 0, None)],
    };
    let pages = pages_for_club(100, &store);
    let nids: Vec<u64> = pages.iter().map(|p| p.nid).collect();
    assert_eq!(nids, vec![100, 300, 200]);
    assert_eq!(pages[1].body_html, "<h3>First</h3>\n<h3>Second</h3>\n");
    assert_eq!(pages[2].body_html, "");
}

#[test]
fn missing_homepage_entity_gives_children_only() {
    let store = SiteStore {
        nodes: vec![page_node(200, "About")],
        links: vec![link(1, "m1", 100, "Home", 0, ""), link(2, "l2", 200, "About", 1, "menu_link_content:m1")],
        paragraphs: Vec::new(),
    };
    let pages = pages_for_club(100, &store);
    assert_eq!(pages.len(), 1);
    assert_eq!(pages[0].nid, 200);
}

#[test]
fn assets_resolution() {
    let media = vec![
        ClubMedia { mid: 9, name: s("club logo new"), uri: s("public://new.png") },
        ClubMedia { mid: 3, name: s("banner"), uri: s("public://b.png") },
        ClubMedia { mid: 4, name: s("logo"), uri: s("public://old.png") },
    ];
    assert_eq!(pick_logo(&media), Some(s("public://old.png")));
    let social = vec![s("https://twitter.com/x"), s("https://facebook.com/club")];
    let buttons = vec![s("https://www.facebook.com/other")];
    assert_eq!(pick_facebook_url(&social, &buttons), Some(s("https://facebook.com/club")));
    assert_eq!(pick_facebook_url(&Vec::new(), &buttons), Some(s("https://www.facebook.com/other")));
    let a = homepage_assets(&vec![s("public://banner.jpg")], &media, &Vec::new(), &Vec::new());
    assert_eq!(a.banner_image, Some(s("public://banner.jpg")));
    assert_eq!(a.logo_image, Some(s("public://old.png")));
    assert_eq!(a.facebook_url, None);
    let none = homepage_assets(&Vec::new(), &Vec::new(), &Vec::new(), &Vec::new());
    assert!(none.banner_image.is_none() && none.logo_image.is_none());
}

#[test]
fn select_club_errors() {
    let nodes = vec![node(1, "ssp_club", "X"), node(10, "microsite_homepage", "X")];
    let numbers = vec![ClubNumberRow { entity_id: 1, value: 42 }];
    let clubs = clubs_with_microsites(&nodes, &numbers, &Vec::new());
    assert_eq!(PagesCmd { club: Some(42), nid: None }.select_club(&clubs), Ok(0));
    assert_eq!(PagesCmd { club: None, nid: Some(1) }.select_club(&clubs), Ok(0));
    assert_eq!(PagesCmd { club: Some(7), nid: None }.select_club(&clubs), Err(SelectError::ClubNotFound(7)));
    assert_eq!(PagesCmd { club: None, nid: Some(2) }.select_club(&clubs), Err(SelectError::NidNotFound(2)));
    assert_eq!(PagesCmd { club: None, nid: None }.select_club(&clubs), Err(SelectError::NoSelector));
}

#[test]
fn fuse_skips_empty_fragments() {
    assert_eq!(fuse_body(&Some(s("")), &Some(s("B")), &None), "B");
    assert_eq!(fuse_body(&Some(s("S")), &Some(s("")), &Some(s("E"))), "S\n\nE");
    assert_eq!(fuse_body(&Some(s("")), &Some(s("")), &Some(s(""))), "");
}

#[test]
fn storage_refs_keep_public_paths_only() {
    let caps = vec![
        Some(s("/sites/default/files/a.jpg")),
        None,
        Some(s("/elsewhere/b.jpg")),
        Some(s("x/sites/default/files/c.pdf")),
    ];
    assert_eq!(
        storage_refs_of(&caps),
        vec![s("/sites/default/files/a.jpg"), s("x/sites/default/files/c.pdf")]
    );
}
