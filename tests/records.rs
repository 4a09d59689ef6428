use aci_ddb::brns::{expand_brns, BrnRow};
use aci_ddb::users::{custom_avatars, UserAvatar};

#[test]
fn brns_split_trim_and_skip() {
    let rows = vec![
        BrnRow { user_id: 5, brns_values: " 07569, 1234 ,,\t" .to_string() },
        BrnRow { user_id: 0, brns_values: "999".to_string() },
        BrnRow { user_id: -3, brns_values: "888".to_string() },
        BrnRow { user_id: 6, brns_values: "42".to_string() },
    ];
    let got: Vec<(u64, String)> = expand_brns(&rows).into_iter().map(|b| (b.user_uid, b.number)).collect();
    assert_eq!(got, vec![(5, "07569".to_string()), (5, "1234".to_string()), (6, "42".to_string())]);
}

#[test]
fn brns_empty_values() {
    let rows = vec![BrnRow { user_id: 1, brns_values: String::new() }];
    assert!(expand_brns(&rows).is_empty());
}

#[test]
fn avatars_filtered() {
    let rows = vec![
        UserAvatar { uid: 1, uri: "public://pictures/a.png".to_string() },
        UserAvatar { uid: 2, uri: "public://pictures/default.png".to_string() },
        UserAvatar { uid: 3, uri: "private://pictures/c.png".to_string() },
    ];
    let got: Vec<u64> = custom_avatars(rows).into_iter().map(|a| a.uid).collect();
    assert_eq!(got, vec![1]);
}
