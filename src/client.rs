//! What the control client asks the daemon, and which fields an exported
//! profile searches on.
use vstd::prelude::*;

use crate::search::SearchField;

verus! {

/// A request to the daemon.
#[derive(Debug, PartialEq, Eq)]
pub enum IpcRequest {
    CurrentHeads,
    CurrentState,
    MatchReports,
    ReloadConfig(Option<String>),
    SwitchProfile(String),
}

/// Which head attributes the searches of an exported profile use.
#[derive(Clone, Copy, Debug, PartialEq, Eq, Structural)]
pub struct IncludeSearchFields {
    pub description: bool,
    pub name: bool,
    pub model: bool,
    pub serial: bool,
    pub vendor: bool,
}

impl IncludeSearchFields {
    /// Model, serial number and vendor.
    pub fn default() -> (r: IncludeSearchFields)
        ensures
            r == (IncludeSearchFields { description: false, name: false, model: true, serial: true, vendor: true }),
    {
        IncludeSearchFields { description: false, name: false, model: true, serial: true, vendor: true }
    }

    /// The chosen fields in the order description, name, model, serial,
    /// vendor.
    pub fn fields(&self) -> (r: Vec<SearchField>)
        ensures
            r@ == (if self.description { seq![SearchField::Description] } else { Seq::empty() })
                + (if self.name { seq![SearchField::Name] } else { Seq::empty() })
                + (if self.model { seq![SearchField::Model] } else { Seq::empty() })
                + (if self.serial { seq![SearchField::Serial] } else { Seq::empty() })
                + (if self.vendor { seq![SearchField::Vendor] } else { Seq::empty() }),
    {
        let mut sf: Vec<SearchField> = Vec::new();
        if self.description {
            sf.push(SearchField::Description);
        }
        if self.name {
            sf.push(SearchField::Name);
        }
        if self.model {
            sf.push(SearchField::Model);
        }
        if self.serial {
            sf.push(SearchField::Serial);
        }
        if self.vendor {
            sf.push(SearchField::Vendor);
        }
        proof {
            assert(sf@ =~= (if self.description { seq![SearchField::Description] } else { Seq::empty() })
                + (if self.name { seq![SearchField::Name] } else { Seq::empty() })
                + (if self.model { seq![SearchField::Model] } else { Seq::empty() })
                + (if self.serial { seq![SearchField::Serial] } else { Seq::empty() })
                + (if self.vendor { seq![SearchField::Vendor] } else { Seq::empty() }));
        }
        sf
    }
}

/// Debugging requests.
#[derive(Clone, Copy, Debug, PartialEq, Eq, Structural)]
pub enum CmdDebug {
    CurrentState,
    ListReports,
}

/// Switch to the profile with this name.
#[derive(Debug)]
pub struct CmdSwitch {
    pub name: String,
}

/// Reload the configuration, optionally from another file.
#[derive(Debug)]
pub struct CmdReload {
    pub file: Option<String>,
}

/// Export the current heads as a profile.
#[derive(Debug)]
pub struct CmdExport {
    pub search_fields: Option<IncludeSearchFields>,
    pub profile_name: String,
}

/// A command of the control client.
#[derive(Debug)]
pub enum Command {
    Debug(CmdDebug),
    Switch(CmdSwitch),
    Reload(CmdReload),
    Export(CmdExport),
}

/// The control client's arguments.
#[derive(Debug)]
pub struct ShikaneCtl {
    pub cmd: Command,
    pub socket: Option<String>,
}

impl Command {
    /// The request that carries out the command; an export needs the heads.
    pub fn request(self) -> (r: IpcRequest)
        ensures
            self matches Command::Debug(CmdDebug::CurrentState) ==> r == IpcRequest::CurrentState,
            self matches Command::Debug(CmdDebug::ListReports) ==> r == IpcRequest::MatchReports,
            self matches Command::Switch(c) ==> r == IpcRequest::SwitchProfile(c.name),
            self matches Command::Reload(c) ==> r == IpcRequest::ReloadConfig(c.file),
            self is Export ==> r == IpcRequest::CurrentHeads,
    {
        match self {
            Command::Debug(CmdDebug::CurrentState) => IpcRequest::CurrentState,
            Command::Debug(CmdDebug::ListReports) => IpcRequest::MatchReports,
            Command::Switch(c) => IpcRequest::SwitchProfile(c.name),
            Command::Reload(c) => IpcRequest::ReloadConfig(c.file),
            Command::Export(_) => IpcRequest::CurrentHeads,
        }
    }
}

} // verus!
