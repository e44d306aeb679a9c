use gobby::surfaces::{Recipient, Surface};

#[test]
fn surface_slug_round_trips() {
    assert_eq!(Surface::Telegram.slug(), "telegram");
    assert_eq!(Surface::IMessage.slug(), "imessage");
}

#[test]
fn telegram_group_addresses_detected() {
    let r = Recipient::new(Surface::Telegram, "-100123456");
    assert!(r.is_group());

    let dm = Recipient::new(Surface::Telegram, "12345");
    assert!(!dm.is_group());
}

#[test]
fn every_surface_has_its_own_slug() {
    let all = [
        Surface::WhatsApp,
        Surface::Telegram,
        Surface::Discord,
        Surface::IMessage,
        Surface::WebChat,
        Surface::Voice,
    ];
    let slugs: Vec<&str> = all.iter().map(|s| s.slug()).collect();
    assert_eq!(slugs, vec!["whatsapp", "telegram", "discord", "imessage", "webchat", "voice"]);
}

#[test]
fn discord_channel_and_named_groups() {
    assert!(Recipient::new(Surface::Discord, "#general").is_group());
    assert!(Recipient::new(Surface::Telegram, "group:family").is_group());
    assert!(!Recipient::new(Surface::Telegram, "group").is_group());
    assert!(!Recipient::new(Surface::Telegram, "").is_group());
    assert!(!Recipient::new(Surface::Discord, "Group:x").is_group());
}

#[test]
fn other_surfaces_have_no_groups() {
    assert!(!Recipient::new(Surface::WhatsApp, "-100").is_group());
    assert!(!Recipient::new(Surface::IMessage, "#x").is_group());
    assert!(!Recipient::new(Surface::WebChat, "group:x").is_group());
    let r = Recipient::new(Surface::Voice, "abc");
    assert_eq!(r.address, "abc");
    assert_eq!(r.surface, Surface::Voice);
}
