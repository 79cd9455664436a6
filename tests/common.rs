use rinko::common::{CommandType, ContentType, Platform};
use rinko::wire::{WireCommandType, WireContentType, WirePlatform};

#[test]
fn platform_names_and_wire_values() {
    assert_eq!(Platform::from_name("QQ"), Some(Platform::QQ));
    assert_eq!(Platform::from_name("EnterpriseWechat"), Some(Platform::EnterpriseWechat));
    assert_eq!(Platform::from_name("irc"), None);
    assert_eq!(Platform::Telegram.as_str(), "telegram");
    assert_eq!(Platform::LLOneBot.to_proto(), WirePlatform::Llonebot);
    assert_eq!(Platform::from_proto(WirePlatform::Unspecified), None);
    assert_eq!(Platform::from_proto(WirePlatform::Discord), Some(Platform::Discord));
    assert_eq!(ContentType::Image.to_proto(), WireContentType::Image);
    assert_eq!(ContentType::from_proto(WireContentType::Unspecified), None);
    assert_eq!(CommandType::from_proto(WireCommandType::Shutdown), CommandType::Shutdown);
    assert_eq!(CommandType::GetStatus.to_proto(), WireCommandType::GetStatus);
}
