use pine::credential::{NoSecret, Status};
use pine::{
    Button, Container, Cred, CredEdit, Description, Rgb, Secret, SecretInput, SecretTypeMessage,
    StoreMessage, Text, Theme, Username,
};

#[test]
fn secret_text_and_kind() {
    let s = Secret::Pin("1234".to_string());
    assert_eq!(s.text(), "pin:1234");
    assert_eq!(s.kind(), SecretTypeMessage::Pin);
    assert_eq!(Secret::Password("x".to_string()).kind(), SecretTypeMessage::Password);
    assert_eq!(SecretTypeMessage::Pin.label(), "Pin");
}

#[test]
fn secret_parse_splits_at_first_colon() {
    assert!(matches!(Secret::parse("password:a:b"), Some(Secret::Password(v)) if v == "a:b"));
    assert!(matches!(Secret::parse("pin:"), Some(Secret::Pin(v)) if v.is_empty()));
    assert!(Secret::parse("pin").is_none());
    assert!(Secret::parse("Pin:1").is_none());
}

#[test]
fn secret_value_hidden_masks_each_byte() {
    let s = Secret::Password("héllo".to_string());
    assert_eq!(s.value(false), "héllo");
    assert_eq!(s.value(true), "\u{2022}".repeat(6));
}

#[test]
fn secret_update_follows_kind() {
    let mut p = Secret::Password("old".to_string());
    p.update(SecretInput::Password("new".to_string()));
    assert!(matches!(&p, Secret::Password(v) if v == "new"));
    p.update(SecretInput::Pin(Some(5)));
    assert!(matches!(&p, Secret::Password(v) if v.is_empty()));
    let mut n = Secret::Pin("1".to_string());
    n.update(SecretInput::Pin(Some(4321)));
    assert!(matches!(&n, Secret::Pin(v) if v == "4321"));
    n.update(SecretInput::Pin(None));
    assert!(matches!(&n, Secret::Pin(v) if v.is_empty()));
}

#[test]
fn secret_input_set_secret() {
    let mut pin = SecretInput::Pin(Some(7));
    pin.set_secret("+12".to_string());
    assert!(matches!(pin, SecretInput::Pin(Some(12))));
    pin.set_secret("abc".to_string());
    assert!(matches!(pin, SecretInput::Pin(Some(12))));
    pin.set_secret("99999999999".to_string());
    assert!(matches!(pin, SecretInput::Pin(Some(12))));
    pin.set_secret(String::new());
    assert!(matches!(pin, SecretInput::Pin(None)));
    let mut pass = SecretInput::default();
    assert!(pass.is_empty());
    pass.set_secret("s3cret".to_string());
    assert!(!pass.is_empty());
    assert_eq!(pass.get_val(), "s3cret");
}

#[test]
fn secret_input_new_from_and_get_val() {
    assert!(matches!(SecretInput::new_from("0042", SecretTypeMessage::Pin), SecretInput::Pin(Some(42))));
    assert!(matches!(SecretInput::new_from("-1", SecretTypeMessage::Pin), SecretInput::Pin(None)));
    assert_eq!(SecretInput::Pin(Some(42)).get_val(), "42");
    assert_eq!(SecretInput::Pin(None).get_val(), "");
    assert_eq!(SecretInput::new_from("pw", SecretTypeMessage::Password).get_val(), "pw");
}

#[test]
fn description_is_trimmed() {
    assert_eq!(Description::new("  work login \n".to_string()).0, "work login");
    assert_eq!(Description::new("\u{3000}x y\t".to_string()).0, "x y");
    let mut d = Description::new(String::new());
    d.update("  kept  ".to_string());
    assert_eq!(d.0, "  kept  ");
}

#[test]
fn username_new_and_update() {
    let mut u = Username::new("a".to_string());
    u.update("b".to_string());
    assert_eq!(u.0, "b");
}

#[test]
fn cred_new_needs_a_pin_number() {
    assert!(matches!(
        Cred::new("u".to_string(), SecretInput::Pin(None), String::new()),
        Err(NoSecret)
    ));
    let c = Cred::new("u".to_string(), SecretInput::Pin(Some(77)), " d ".to_string())
        .ok()
        .unwrap();
    assert!(matches!(&c.secret, Secret::Pin(v) if v == "77"));
    assert_eq!(c.description.0, "d");
    assert!(c.hidden);
    assert!(c.edit_mode.is_none());
}

#[test]
fn cred_edit_and_save() {
    let mut c = Cred::new_from_raw("u".to_string(), Secret::Pin("12".to_string()), "d".to_string());
    c.toggle_edit();
    let edit = c.edit_mode.as_mut().unwrap();
    assert_eq!(edit.username, "u");
    assert!(matches!(edit.secret, SecretInput::Pin(Some(12))));
    assert!(edit.is_not_empty());
    edit.username = "v".to_string();
    edit.secret.set_secret("34".to_string());
    edit.description = "e".to_string();
    c.set_creds();
    assert!(c.edit_mode.is_none());
    assert_eq!(c.username.0, "v");
    assert!(matches!(&c.secret, Secret::Pin(v) if v == "34"));
    assert_eq!(c.description.0, "e");
    c.toggle_edit();
    c.toggle_edit();
    assert!(c.edit_mode.is_none());
}

#[test]
fn cred_edit_new_from_and_emptiness() {
    let e = CredEdit::new_from("", "pw", SecretTypeMessage::Password, "d");
    assert!(!e.is_not_empty());
    let e = CredEdit::new_from("u", "x", SecretTypeMessage::Pin, "d");
    assert!(!e.is_not_empty());
}

#[test]
fn store_message_toasts() {
    let t = StoreMessage::Added.toast().unwrap();
    assert_eq!(t.message, "New credential added");
    assert_eq!(t.status, Status::Success);
    assert_eq!(StoreMessage::Invalid.toast().unwrap().status.label(), "Danger");
    assert!(StoreMessage::Fetched(Vec::new()).toast().is_none());
}

#[test]
fn theme_colors() {
    let t = Theme;
    assert_eq!(t.background(), Rgb { r: 48, g: 56, b: 65 });
    assert_eq!(t.container_background(Container::Default), None);
    assert_eq!(t.container_background(Container::DangerToast), Some(Rgb { r: 224, g: 29, b: 29 }));
    assert_eq!(t.text_color(Text::Light), Rgb { r: 245, g: 245, b: 220 });
    assert_eq!(t.button_background(Button::Toast), None);
    assert_eq!(t.button_background(Button::Edit), Some(Rgb { r: 246, g: 201, b: 14 }));
}

#[test]
fn secret_input_with_kind() {
    let pw = SecretInput::Password("0815".to_string());
    assert!(matches!(pw.with_kind(SecretTypeMessage::Pin), SecretInput::Pin(Some(815))));
    let word = SecretInput::Password("word".to_string());
    assert!(matches!(word.with_kind(SecretTypeMessage::Pin), SecretInput::Pin(None)));
    let pin = SecretInput::Pin(Some(31));
    assert!(matches!(pin.with_kind(SecretTypeMessage::Pin), SecretInput::Pin(Some(31))));
    assert!(matches!(pin.with_kind(SecretTypeMessage::Password), SecretInput::Password(p) if p == "31"));
    assert!(matches!(SecretInput::Pin(None).with_kind(SecretTypeMessage::Password), SecretInput::Password(p) if p.is_empty()));
}
