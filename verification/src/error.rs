//! Error taxonomy: network failures seen by the frame adapter and the
//! session engine, and the failures of the configuration and logging
//! collaborators.
use vstd::prelude::*;
use vstd::string::StringExecFns;

verus! {

/// Spec-level image of a [`NetError`], with text as character sequences.
pub enum NetErrorView {
    ARPSendFailed,
    ARPSerializeFailed,
    ARPDeserializeFailed,
    CaptureFailed,
    ChannelGettingError(Seq<char>),
    EthernetParseFailed,
    InterfaceAlreadySet,
    InvalidInterface(Seq<char>),
    MessageTooLong,
    NoMac,
    UnknownChannelType,
}

/// Everything that can go wrong binding, sending on, or receiving from
/// the link; wrapped OS detail is carried as plain text.
#[derive(Clone, Debug)]
pub enum NetError {
    ARPSendFailed,
    ARPSerializeFailed,
    ARPDeserializeFailed,
    CaptureFailed,
    ChannelGettingError(String),
    EthernetParseFailed,
    InterfaceAlreadySet,
    InvalidInterface(String),
    MessageTooLong,
    NoMac,
    UnknownChannelType,
}

impl View for NetError {
    type V = NetErrorView;

    open spec fn view(&self) -> NetErrorView {
        match self {
            NetError::ARPSendFailed => NetErrorView::ARPSendFailed,
            NetError::ARPSerializeFailed => NetErrorView::ARPSerializeFailed,
            NetError::ARPDeserializeFailed => NetErrorView::ARPDeserializeFailed,
            NetError::CaptureFailed => NetErrorView::CaptureFailed,
            NetError::ChannelGettingError(s) => NetErrorView::ChannelGettingError(s@),
            NetError::EthernetParseFailed => NetErrorView::EthernetParseFailed,
            NetError::InterfaceAlreadySet => NetErrorView::InterfaceAlreadySet,
            NetError::InvalidInterface(s) => NetErrorView::InvalidInterface(s@),
            NetError::MessageTooLong => NetErrorView::MessageTooLong,
            NetError::NoMac => NetErrorView::NoMac,
            NetError::UnknownChannelType => NetErrorView::UnknownChannelType,
        }
    }
}

impl NetError {
    /// The text shown for this failure.
    pub open spec fn spec_message(&self) -> Seq<char> {
        match self {
            NetError::ARPSendFailed => "Couldn't send ARP packet"@,
            NetError::ARPSerializeFailed => "Couldn't serialize ARP packet"@,
            NetError::ARPDeserializeFailed => "Couldn't deserialize ARP packet"@,
            NetError::CaptureFailed => "Couldn't capture packet"@,
            NetError::ChannelGettingError(_) => (
                "Error getting channel, might be missing permissions"@
            ),
            NetError::EthernetParseFailed => "Couldn't parse frame as Ethernet"@,
            NetError::InterfaceAlreadySet => (
                "Tried to set interface, but interface is already initialized"@
            ),
            NetError::InvalidInterface(name) => "Invalid interface "@ + name@,
            NetError::MessageTooLong => "Message too long to send."@,
            NetError::NoMac => "No MAC Address."@,
            NetError::UnknownChannelType => "Unknown channel type, only ethernet is supported"@,
        }
    }

    pub fn message(&self) -> (r: String)
        ensures
            r@ == self.spec_message(),
    {
        match self {
            NetError::ARPSendFailed => "Couldn't send ARP packet".to_owned(),
            NetError::ARPSerializeFailed => "Couldn't serialize ARP packet".to_owned(),
            NetError::ARPDeserializeFailed => "Couldn't deserialize ARP packet".to_owned(),
            NetError::CaptureFailed => "Couldn't capture packet".to_owned(),
            NetError::ChannelGettingError(_) => (
                "Error getting channel, might be missing permissions".to_owned()
            ),
            NetError::EthernetParseFailed => "Couldn't parse frame as Ethernet".to_owned(),
            NetError::InterfaceAlreadySet => (
                "Tried to set interface, but interface is already initialized".to_owned()
            ),
            NetError::InvalidInterface(name) => {
                let mut text = "Invalid interface ".to_owned();
                text.append(name.as_str());
                text
            },
            NetError::MessageTooLong => "Message too long to send.".to_owned(),
            NetError::NoMac => "No MAC Address.".to_owned(),
            NetError::UnknownChannelType => (
                "Unknown channel type, only ethernet is supported".to_owned()
            ),
        }
    }
}

/// Failures of the configuration collaborator, carried as plain text.
#[derive(Clone, Debug)]
pub enum ConfigError {
    CannotCreateFile(String),
    CannotRecreatePath(String),
    CurrentDirFetchFailed(String),
    SerializerFailed(String),
}

/// Failures of the logging collaborator, carried as plain text.
#[derive(Clone, Debug)]
pub enum LoggerError {
    CannotAccessLogFile,
    SetLoggerError(String),
}

impl ConfigError {
    /// The text shown for this failure.
    pub open spec fn spec_message(&self) -> Seq<char> {
        match self {
            ConfigError::CannotCreateFile(_) => "Cannot create config file."@,
            ConfigError::CannotRecreatePath(_) => "Cannot recreate config path."@,
            ConfigError::CurrentDirFetchFailed(_) => (
                "Current directory does not exist or cannot be accessed."@
            ),
            ConfigError::SerializerFailed(_) => "Serializer failed while saving file."@,
        }
    }

    pub fn message(&self) -> (r: String)
        ensures
            r@ == self.spec_message(),
    {
        match self {
            ConfigError::CannotCreateFile(_) => "Cannot create config file.".to_owned(),
            ConfigError::CannotRecreatePath(_) => "Cannot recreate config path.".to_owned(),
            ConfigError::CurrentDirFetchFailed(_) => (
                "Current directory does not exist or cannot be accessed.".to_owned()
            ),
            ConfigError::SerializerFailed(_) => "Serializer failed while saving file.".to_owned(),
        }
    }
}

impl LoggerError {
    /// The text shown for this failure.
    pub open spec fn spec_message(&self) -> Seq<char> {
        match self {
            LoggerError::CannotAccessLogFile => "Cannot access log file"@,
            LoggerError::SetLoggerError(_) => "Log init error"@,
        }
    }

    pub fn message(&self) -> (r: String)
        ensures
            r@ == self.spec_message(),
    {
        match self {
            LoggerError::CannotAccessLogFile => "Cannot access log file".to_owned(),
            LoggerError::SetLoggerError(_) => "Log init error".to_owned(),
        }
    }
}

} // verus!
