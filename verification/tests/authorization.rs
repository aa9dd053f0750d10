use apple_speech::authorization::{
    authorization_answer, is_running_from_app_bundle, AUTH_STATUS_AUTHORIZED, AUTH_STATUS_DENIED,
    AUTH_STATUS_NOT_DETERMINED, AUTH_STATUS_RESTRICTED,
};

fn path(s: &str) -> Option<String> {
    Some(s.to_string())
}

#[test]
fn only_the_authorized_status_grants() {
    assert_eq!(authorization_answer(AUTH_STATUS_AUTHORIZED), Ok(()));
    assert_eq!(
        authorization_answer(AUTH_STATUS_DENIED),
        Err("Apple Speech recognition permission was denied.".to_string())
    );
    assert_eq!(
        authorization_answer(AUTH_STATUS_RESTRICTED),
        Err("Apple Speech recognition is restricted on this Mac.".to_string())
    );
    for status in [AUTH_STATUS_NOT_DETERMINED, 4, -1, i64::MAX, i64::MIN] {
        assert_eq!(
            authorization_answer(status),
            Err("Apple Speech recognition permission was not granted.".to_string())
        );
    }
}

#[test]
fn statuses_have_the_numbers_of_the_framework() {
    assert_eq!(AUTH_STATUS_NOT_DETERMINED, 0);
    assert_eq!(AUTH_STATUS_DENIED, 1);
    assert_eq!(AUTH_STATUS_RESTRICTED, 2);
    assert_eq!(AUTH_STATUS_AUTHORIZED, 3);
}

#[test]
fn bundles_are_known_by_their_path() {
    assert!(is_running_from_app_bundle(&path("/Applications/Voquill.app"), &None));
    assert!(is_running_from_app_bundle(&path("/Applications/Voquill.app/Contents"), &None));
    assert!(!is_running_from_app_bundle(&path("/src/target/debug"), &None));
    assert!(!is_running_from_app_bundle(&path("/src/my.apple/debug"), &None));
    assert!(!is_running_from_app_bundle(&path("app"), &None));
    assert!(!is_running_from_app_bundle(&None, &None));
}

#[test]
fn bundles_are_known_by_their_executable() {
    let inside = path("/Applications/Voquill.app/Contents/MacOS/voquill");
    assert!(is_running_from_app_bundle(&None, &inside));
    assert!(is_running_from_app_bundle(&path("/src"), &inside));
    assert!(!is_running_from_app_bundle(&None, &path("/Applications/Voquill.app/voquill")));
    assert!(!is_running_from_app_bundle(&path("/src"), &path("/src/target/debug/voquill")));
}
