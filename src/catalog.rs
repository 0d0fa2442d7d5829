//! The role and permission catalog as collected from the upstream authority.

use vstd::prelude::*;
use crate::segments::{segment, split_permission_name};
use crate::table::NameTable;
use crate::text::same_text;

verus! {

/// Lifecycle stage of a role.
#[derive(Clone, Copy, Debug, PartialEq, Eq, Structural)]
pub enum IamStage {
    Ga,
    Beta,
    Alpha,
    Deprecated,
}

/// The stage a stage label names; an unknown label means general
/// availability.
pub open spec fn stage_named(s: Seq<char>) -> IamStage {
    if s == "BETA"@ {
        IamStage::Beta
    } else if s == "ALPHA"@ {
        IamStage::Alpha
    } else if s == "DEPRECATED"@ {
        IamStage::Deprecated
    } else {
        IamStage::Ga
    }
}

/// The upper-case label of a stage.
pub open spec fn stage_label(s: IamStage) -> Seq<char> {
    match s {
        IamStage::Ga => "GA"@,
        IamStage::Beta => "BETA"@,
        IamStage::Alpha => "ALPHA"@,
        IamStage::Deprecated => "DEPRECATED"@,
    }
}

impl IamStage {
    /// The stage a stage label names; an unknown label means general
    /// availability.
    pub fn from_label(s: &str) -> (r: IamStage)
        ensures
            r == stage_named(s@),
    {
        if same_text(s, "BETA") {
            IamStage::Beta
        } else if same_text(s, "ALPHA") {
            IamStage::Alpha
        } else if same_text(s, "DEPRECATED") {
            IamStage::Deprecated
        } else {
            IamStage::Ga
        }
    }

    /// The upper-case label of the stage.
    pub fn label(&self) -> (r: String)
        ensures
            r@ == stage_label(*self),
            stage_named(r@) == *self,
    {
        proof {
            reveal_strlit("GA");
            reveal_strlit("BETA");
            reveal_strlit("ALPHA");
            reveal_strlit("DEPRECATED");
            assert("GA"@.len() != "BETA"@.len());
            assert("GA"@.len() != "ALPHA"@.len());
            assert("GA"@.len() != "DEPRECATED"@.len());
        }
        match self {
            IamStage::Ga => String::from_str("GA"),
            IamStage::Beta => String::from_str("BETA"),
            IamStage::Alpha => String::from_str("ALPHA"),
            IamStage::Deprecated => String::from_str("DEPRECATED"),
        }
    }
}

impl Default for IamStage {
    fn default() -> (r: IamStage)
        ensures
            r == IamStage::Ga,
    {
        IamStage::Ga
    }
}

/// A role of the catalog.
#[derive(Clone, Debug)]
pub struct IamRole {
    pub name: String,
    pub title: String,
    pub description: String,
    pub stage: IamStage,
    pub included_permissions: Vec<String>,
    pub etag: String,
    pub deleted: bool,
    pub permission_count: usize,
    pub keywords: Vec<String>,
}

/// A permission of the catalog.
#[derive(Clone, Debug)]
pub struct IamPermission {
    pub name: String,
    pub service: String,
    pub resource: String,
    pub action: String,
    pub description: Option<String>,
    pub custom_roles_support_level: Option<String>,
    pub stage: Option<String>,
    pub api_disabled: Option<bool>,
    pub roles_granting: Vec<String>,
}

/// Differences from the previous collection run.
#[derive(Clone, Debug)]
pub struct Changes {
    pub roles_added: Vec<String>,
    pub roles_removed: Vec<String>,
    pub roles_modified: Vec<String>,
    pub permissions_added: Vec<String>,
    pub permissions_removed: Vec<String>,
}

impl Default for Changes {
    fn default() -> (r: Changes)
        ensures
            r.roles_added@.len() == 0,
            r.roles_removed@.len() == 0,
            r.roles_modified@.len() == 0,
            r.permissions_added@.len() == 0,
            r.permissions_removed@.len() == 0,
    {
        Changes {
            roles_added: Vec::new(),
            roles_removed: Vec::new(),
            roles_modified: Vec::new(),
            permissions_added: Vec::new(),
            permissions_removed: Vec::new(),
        }
    }
}

/// Facts about a collected catalog.
#[derive(Clone, Debug)]
pub struct IamMetadata {
    pub last_updated: String,
    pub total_roles: usize,
    pub total_permissions: usize,
    pub gcp_api_version: String,
    pub changes_since_last_run: Changes,
}

/// Lookup tables over a catalog's role and permission lists, by position.
#[derive(Clone, Debug)]
pub struct Indexes {
    pub roles_by_name: NameTable<usize>,
    pub permissions_by_name: NameTable<usize>,
    pub roles_by_stage: NameTable<Vec<usize>>,
    pub permissions_by_service: NameTable<Vec<usize>>,
}

/// A complete catalog with its metadata and lookup tables.
#[derive(Clone, Debug)]
pub struct IamDataset {
    pub metadata: IamMetadata,
    pub roles: Vec<IamRole>,
    pub permissions: Vec<IamPermission>,
    pub indexes: Indexes,
}

/// A catalog as fetched, before it is cross-referenced.
#[derive(Debug)]
pub struct RawGcpData {
    pub roles: Vec<IamRole>,
    pub permissions: Vec<IamPermission>,
    pub fetched_at: String,
}

/// A role as the upstream listing describes it.
#[derive(Debug)]
pub struct GcpRoleResponse {
    pub name: String,
    pub title: String,
    pub description: String,
    pub stage: String,
    pub included_permissions: Vec<String>,
    pub etag: String,
    pub deleted: bool,
}

/// One page of the upstream role listing.
#[derive(Debug)]
pub struct GcpRolesResponse {
    pub roles: Vec<GcpRoleResponse>,
    pub next_page_token: Option<String>,
}

impl IamPermission {
    /// A permission created from its name `service.resource.action`; absent
    /// pieces are empty, and nothing else is known of it yet.
    pub fn from_name(name: String) -> (r: IamPermission)
        ensures
            r.name == name,
            r.service@ == segment(name@, 0),
            r.resource@ == segment(name@, 1),
            r.action@ == segment(name@, 2),
            r.description is None,
            r.custom_roles_support_level is None,
            r.stage is None,
            r.api_disabled is None,
            r.roles_granting@.len() == 0,
    {
        let (service, resource, action) = split_permission_name(name.as_str());
        IamPermission {
            name,
            service,
            resource,
            action,
            description: None,
            custom_roles_support_level: None,
            stage: None,
            api_disabled: None,
            roles_granting: Vec::new(),
        }
    }
}

} // verus!
