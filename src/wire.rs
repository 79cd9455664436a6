//! The enumerations of the bot's RPC messages, as the wire format has them:
//! each with an `Unspecified` member that the protocol's own types lack.
use vstd::prelude::*;

verus! {

#[derive(Debug, Clone, Copy, PartialEq, Eq, Structural)]
pub enum WirePlatform {
    Unspecified,
    Qq,
    EnterpriseWechat,
    Telegram,
    Discord,
    Llonebot,
}

#[derive(Debug, Clone, Copy, PartialEq, Eq, Structural)]
pub enum WireContentType {
    Unspecified,
    Text,
    Image,
    Video,
    File,
}

#[derive(Debug, Clone, Copy, PartialEq, Eq, Structural)]
pub enum WireCommandType {
    Unspecified,
    SendMessage,
    Shutdown,
    GetStatus,
}

} // verus!
