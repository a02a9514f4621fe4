use desktop_entry_daemon::errors::ValidationError;
use desktop_entry_daemon::imaging::check_square;
use desktop_entry_daemon::numfmt::u32_to_string;
use desktop_entry_daemon::reconciler::{LifetimeReconciler, ReconcilerState};
use desktop_entry_daemon::validate::{check_app_id, validate_desktop_entry};

#[test]
fn well_formed_descriptor_is_accepted() {
    let text = "[Desktop Entry]\nType=Application\nName=Example\nExec=example\n\n# a comment\n[Desktop Action open]\nName=Open";
    assert_eq!(validate_desktop_entry(text, "com.example.App"), Ok(()));
}

#[test]
fn descriptor_without_header_is_rejected() {
    let text = "Type=Application\nName=Example";
    assert_eq!(
        validate_desktop_entry(text, "com.example.App"),
        Err(ValidationError::MissingHeader)
    );
}

#[test]
fn descriptor_with_malformed_line_is_rejected() {
    let text = "[Desktop Entry]\nType=Application\nName=Example\n=no key";
    assert_eq!(
        validate_desktop_entry(text, "com.example.App"),
        Err(ValidationError::MalformedLine)
    );
    let text2 = "[Desktop Entry]\nType=Application\nName=Example\nnot a pair";
    assert_eq!(
        validate_desktop_entry(text2, "com.example.App"),
        Err(ValidationError::MalformedLine)
    );
}

#[test]
fn descriptor_missing_required_key_is_rejected() {
    let text = "[Desktop Entry]\nType=Application";
    assert_eq!(
        validate_desktop_entry(text, "com.example.App"),
        Err(ValidationError::MissingRequiredKey)
    );
    // a Name in a later group does not satisfy the opening group
    let text2 = "[Desktop Entry]\nType=Application\n[Desktop Action open]\nName=Open";
    assert_eq!(
        validate_desktop_entry(text2, "com.example.App"),
        Err(ValidationError::MissingRequiredKey)
    );
}

#[test]
fn bad_application_ids_are_rejected() {
    let text = "[Desktop Entry]\nType=Application\nName=Example";
    assert_eq!(validate_desktop_entry(text, ""), Err(ValidationError::InvalidAppId));
    assert_eq!(
        validate_desktop_entry(text, "has space"),
        Err(ValidationError::InvalidAppId)
    );
    assert_eq!(
        validate_desktop_entry(text, "slash/attack"),
        Err(ValidationError::InvalidAppId)
    );
    assert!(check_app_id("com.example.App-2_beta"));
    assert!(!check_app_id("../escape"));
}

#[test]
fn decimal_rendering_exact_values() {
    assert_eq!(u32_to_string(0), "0");
    assert_eq!(u32_to_string(7), "7");
    assert_eq!(u32_to_string(10), "10");
    assert_eq!(u32_to_string(512), "512");
    assert_eq!(u32_to_string(4294967295), "4294967295");
}

#[test]
fn square_check_exact_values() {
    assert!(check_square(200, 200));
    assert!(!check_square(300, 400));
}

#[test]
fn reconciler_stops_for_good() {
    let mut rec = LifetimeReconciler::new();
    assert_eq!(rec.state, ReconcilerState::Running);
    assert!(rec.should_poll());
    rec.stop();
    assert!(!rec.should_poll());
    assert_eq!(rec.state, ReconcilerState::Stopped);
}
