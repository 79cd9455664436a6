//! Types shared by the bot's back end and its chat front ends.
use vstd::prelude::*;

use crate::text::{chars_of, lower_of, lower_text, same_chars};
use crate::wire::{WireCommandType, WireContentType, WirePlatform};

verus! {

/// A chat platform.
#[derive(Debug, Clone, Copy, PartialEq, Eq, Hash, Structural)]
pub enum Platform {
    QQ,
    EnterpriseWechat,
    Telegram,
    Discord,
    LLOneBot,
}

pub open spec fn platform_name(p: Platform) -> Seq<char> {
    match p {
        Platform::QQ => "qq"@,
        Platform::EnterpriseWechat => "enterprise_wechat"@,
        Platform::Telegram => "telegram"@,
        Platform::Discord => "discord"@,
        Platform::LLOneBot => "llonebot"@,
    }
}

/// The platform a lower-case name gives.
pub open spec fn platform_of_name(l: Seq<char>) -> Option<Platform> {
    if l == "qq"@ {
        Some(Platform::QQ)
    } else if l == "enterprise_wechat"@ || l == "enterprisewechat"@ {
        Some(Platform::EnterpriseWechat)
    } else if l == "telegram"@ {
        Some(Platform::Telegram)
    } else if l == "discord"@ {
        Some(Platform::Discord)
    } else if l == "llonebot"@ {
        Some(Platform::LLOneBot)
    } else {
        None
    }
}

fn is_name(v: &[char], s: &str) -> (r: bool)
    ensures
        r == (v@ == s@),
{
    let w = chars_of(s);
    same_chars(v, &w)
}

impl Platform {
    pub fn to_proto(&self) -> (r: WirePlatform)
        ensures
            r == match *self {
                Platform::QQ => WirePlatform::Qq,
                Platform::EnterpriseWechat => WirePlatform::EnterpriseWechat,
                Platform::Telegram => WirePlatform::Telegram,
                Platform::Discord => WirePlatform::Discord,
                Platform::LLOneBot => WirePlatform::Llonebot,
            },
    {
        match self {
            Platform::QQ => WirePlatform::Qq,
            Platform::EnterpriseWechat => WirePlatform::EnterpriseWechat,
            Platform::Telegram => WirePlatform::Telegram,
            Platform::Discord => WirePlatform::Discord,
            Platform::LLOneBot => WirePlatform::Llonebot,
        }
    }

    /// The platform of a wire value; none for `Unspecified`.
    pub fn from_proto(proto: WirePlatform) -> (r: Option<Platform>)
        ensures
            proto == WirePlatform::Unspecified ==> r is None,
            proto != WirePlatform::Unspecified ==> r is Some && r->0.to_proto_spec() == proto,
    {
        match proto {
            WirePlatform::Unspecified => None,
            WirePlatform::Qq => Some(Platform::QQ),
            WirePlatform::EnterpriseWechat => Some(Platform::EnterpriseWechat),
            WirePlatform::Telegram => Some(Platform::Telegram),
            WirePlatform::Discord => Some(Platform::Discord),
            WirePlatform::Llonebot => Some(Platform::LLOneBot),
        }
    }

    pub open spec fn to_proto_spec(&self) -> WirePlatform {
        match *self {
            Platform::QQ => WirePlatform::Qq,
            Platform::EnterpriseWechat => WirePlatform::EnterpriseWechat,
            Platform::Telegram => WirePlatform::Telegram,
            Platform::Discord => WirePlatform::Discord,
            Platform::LLOneBot => WirePlatform::Llonebot,
        }
    }

    /// The platform a name gives, ignoring case (`enterprisewechat`
    /// is taken for `enterprise_wechat`).
    pub fn from_name(s: &str) -> (r: Option<Platform>)
        ensures
            r == platform_of_name(lower_of(s@)),
    {
        let v = chars_of(s);
        let l = lower_text(&v);
        if is_name(&l, "qq") {
            Some(Platform::QQ)
        } else if is_name(&l, "enterprise_wechat") || is_name(&l, "enterprisewechat") {
            Some(Platform::EnterpriseWechat)
        } else if is_name(&l, "telegram") {
            Some(Platform::Telegram)
        } else if is_name(&l, "discord") {
            Some(Platform::Discord)
        } else if is_name(&l, "llonebot") {
            Some(Platform::LLOneBot)
        } else {
            None
        }
    }

    /// The platform's name in configuration and messages.
    pub fn as_str(&self) -> (r: &'static str)
        ensures
            r@ == platform_name(*self),
    {
        match self {
            Platform::QQ => "qq",
            Platform::EnterpriseWechat => "enterprise_wechat",
            Platform::Telegram => "telegram",
            Platform::Discord => "discord",
            Platform::LLOneBot => "llonebot",
        }
    }
}

/// The kind of a message's content.
#[derive(Debug, Clone, Copy, PartialEq, Eq, Hash, Structural)]
pub enum ContentType {
    Unspecified,
    Text,
    Image,
    Video,
    File,
}

impl ContentType {
    pub fn to_proto(&self) -> (r: WireContentType)
        ensures
            r == match *self {
                ContentType::Unspecified => WireContentType::Unspecified,
                ContentType::Text => WireContentType::Text,
                ContentType::Image => WireContentType::Image,
                ContentType::Video => WireContentType::Video,
                ContentType::File => WireContentType::File,
            },
    {
        match self {
            ContentType::Unspecified => WireContentType::Unspecified,
            ContentType::Text => WireContentType::Text,
            ContentType::Image => WireContentType::Image,
            ContentType::Video => WireContentType::Video,
            ContentType::File => WireContentType::File,
        }
    }

    /// The content type of a wire value; none for `Unspecified`.
    pub fn from_proto(proto: WireContentType) -> (r: Option<ContentType>)
        ensures
            r == match proto {
                WireContentType::Unspecified => None,
                WireContentType::Text => Some(ContentType::Text),
                WireContentType::Image => Some(ContentType::Image),
                WireContentType::Video => Some(ContentType::Video),
                WireContentType::File => Some(ContentType::File),
            },
    {
        match proto {
            WireContentType::Unspecified => None,
            WireContentType::Text => Some(ContentType::Text),
            WireContentType::Image => Some(ContentType::Image),
            WireContentType::Video => Some(ContentType::Video),
            WireContentType::File => Some(ContentType::File),
        }
    }
}

/// A command from the back end to a front end.
#[derive(Debug, Clone, Copy, PartialEq, Eq, Hash, Structural)]
pub enum CommandType {
    Unspecified,
    SendMessage,
    Shutdown,
    GetStatus,
}

impl CommandType {
    pub fn to_proto(&self) -> (r: WireCommandType)
        ensures
            r == match *self {
                CommandType::Unspecified => WireCommandType::Unspecified,
                CommandType::SendMessage => WireCommandType::SendMessage,
                CommandType::Shutdown => WireCommandType::Shutdown,
                CommandType::GetStatus => WireCommandType::GetStatus,
            },
    {
        match self {
            CommandType::Unspecified => WireCommandType::Unspecified,
            CommandType::SendMessage => WireCommandType::SendMessage,
            CommandType::Shutdown => WireCommandType::Shutdown,
            CommandType::GetStatus => WireCommandType::GetStatus,
        }
    }

    pub fn from_proto(proto: WireCommandType) -> (r: CommandType)
        ensures
            r.to_proto_spec() == proto,
    {
        match proto {
            WireCommandType::Unspecified => CommandType::Unspecified,
            WireCommandType::SendMessage => CommandType::SendMessage,
            WireCommandType::Shutdown => CommandType::Shutdown,
            WireCommandType::GetStatus => CommandType::GetStatus,
        }
    }

    pub open spec fn to_proto_spec(&self) -> WireCommandType {
        match *self {
            CommandType::Unspecified => WireCommandType::Unspecified,
            CommandType::SendMessage => WireCommandType::SendMessage,
            CommandType::Shutdown => WireCommandType::Shutdown,
            CommandType::GetStatus => WireCommandType::GetStatus,
        }
    }
}

} // verus!
