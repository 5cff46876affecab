//! The parts of a service's configuration that the library reads.

use crate::dispatch::DispatchLocation;
use crate::duplicate::{duplicate_all, Duplicate};
use crate::text::{copy_list, copy_option, first_cut, has_prefix, list_contains, split_once, starts_with, trim, trimmed};
use vstd::prelude::*;

verus! {

/// The field that a declared handler switches on.
#[derive(Debug, Clone, PartialEq, Eq)]
pub struct DeclaredDispatch {
    pub location: DispatchLocation,
    pub field: String,
}

/// What a [`DeclaredDispatch`] holds.
pub struct DeclaredDispatchModel {
    pub location: DispatchLocation,
    pub field: Seq<char>,
}

impl DeepView for DeclaredDispatch {
    type V = DeclaredDispatchModel;

    open spec fn deep_view(&self) -> DeclaredDispatchModel {
        DeclaredDispatchModel {
            location: self.location,
            field: self.field@,
        }
    }
}

impl Duplicate for DeclaredDispatch {
    fn duplicate(&self) -> (r: Self) {
        DeclaredDispatch {
            location: self.location,
            field: self.field.clone(),
        }
    }
}

/// One declared operation: the value that selects it, and its handler as
/// `file:symbol` where it is named.
#[derive(Debug, Clone, PartialEq, Eq)]
pub struct DeclaredOperation {
    pub value: String,
    pub handler: Option<String>,
}

/// What a [`DeclaredOperation`] holds.
pub struct DeclaredOperationModel {
    pub value: Seq<char>,
    pub handler: Option<Seq<char>>,
}

impl DeepView for DeclaredOperation {
    type V = DeclaredOperationModel;

    open spec fn deep_view(&self) -> DeclaredOperationModel {
        DeclaredOperationModel {
            value: self.value@,
            handler: self.handler.deep_view(),
        }
    }
}

impl Duplicate for DeclaredOperation {
    fn duplicate(&self) -> (r: Self) {
        DeclaredOperation {
            value: self.value.clone(),
            handler: copy_option(&self.handler),
        }
    }
}

/// The operations that a service declares for one handler.
#[derive(Debug, Clone, PartialEq, Eq)]
pub struct DeclaredOperations {
    pub service: String,
    /// The route as `METHOD /path`, where the block names it.
    pub route: Option<String>,
    pub dispatch: DeclaredDispatch,
    pub operations: Vec<DeclaredOperation>,
}

/// What a [`DeclaredOperations`] holds.
pub struct DeclaredOperationsModel {
    pub service: Seq<char>,
    pub route: Option<Seq<char>>,
    pub dispatch: DeclaredDispatchModel,
    pub operations: Seq<DeclaredOperationModel>,
}

impl DeepView for DeclaredOperations {
    type V = DeclaredOperationsModel;

    open spec fn deep_view(&self) -> DeclaredOperationsModel {
        DeclaredOperationsModel {
            service: self.service@,
            route: self.route.deep_view(),
            dispatch: self.dispatch.deep_view(),
            operations: self.operations.deep_view(),
        }
    }
}

impl Duplicate for DeclaredOperations {
    fn duplicate(&self) -> (r: Self) {
        DeclaredOperations {
            service: self.service.clone(),
            route: copy_option(&self.route),
            dispatch: self.dispatch.duplicate(),
            operations: duplicate_all(&self.operations),
        }
    }
}

/// The configuration of a service.
#[derive(Debug, Clone, PartialEq, Eq)]
pub struct Config {
    pub service_name: Option<String>,
    pub declared_operations: Vec<DeclaredOperations>,
    /// The hosts that belong to the organisation.
    pub internal_domains: Vec<String>,
    /// The hosts that belong to somebody else.
    pub external_domains: Vec<String>,
    /// The environment variables that hold addresses within the organisation.
    pub internal_env_vars: Vec<String>,
    /// The environment variables that hold addresses of somebody else.
    pub external_env_vars: Vec<String>,
}

/// What a [`Config`] holds.
pub struct ConfigModel {
    pub service_name: Option<Seq<char>>,
    pub declared_operations: Seq<DeclaredOperationsModel>,
    pub internal_domains: Seq<Seq<char>>,
    pub external_domains: Seq<Seq<char>>,
    pub internal_env_vars: Seq<Seq<char>>,
    pub external_env_vars: Seq<Seq<char>>,
}

impl DeepView for Config {
    type V = ConfigModel;

    open spec fn deep_view(&self) -> ConfigModel {
        ConfigModel {
            service_name: self.service_name.deep_view(),
            declared_operations: self.declared_operations.deep_view(),
            internal_domains: self.internal_domains.deep_view(),
            external_domains: self.external_domains.deep_view(),
            internal_env_vars: self.internal_env_vars.deep_view(),
            external_env_vars: self.external_env_vars.deep_view(),
        }
    }
}

impl Duplicate for Config {
    fn duplicate(&self) -> (r: Self) {
        Config {
            service_name: copy_option(&self.service_name),
            declared_operations: duplicate_all(&self.declared_operations),
            internal_domains: copy_list(&self.internal_domains),
            external_domains: copy_list(&self.external_domains),
            internal_env_vars: copy_list(&self.internal_env_vars),
            external_env_vars: copy_list(&self.external_env_vars),
        }
    }
}

impl Default for Config {
    /// A configuration that declares nothing.
    fn default() -> (r: Self)
        ensures
            r.service_name is None,
            r.declared_operations@.len() == 0,
            r.internal_domains@.len() == 0,
            r.external_domains@.len() == 0,
            r.internal_env_vars@.len() == 0,
            r.external_env_vars@.len() == 0,
    {
        Config {
            service_name: None,
            declared_operations: Vec::new(),
            internal_domains: Vec::new(),
            external_domains: Vec::new(),
            internal_env_vars: Vec::new(),
            external_env_vars: Vec::new(),
        }
    }
}

impl Config {
    /// Is an environment variable declared to hold somebody else's address?
    pub fn is_external_env_var(&self, name: &str) -> (r: bool)
        ensures
            r == self.external_env_vars.deep_view().contains(name@),
    {
        list_contains(&self.external_env_vars, name)
    }
}

/// A route written as a method, white space and a path from the root.
pub open spec fn route_in(text: Seq<char>) -> Option<(Seq<char>, Seq<char>)> {
    match first_cut(trimmed(text), " "@) {
        Some((method, rest)) => if has_prefix(trimmed(rest), "/"@) {
            Some((method, trimmed(rest)))
        } else {
            None
        },
        None => None,
    }
}

impl DeclaredOperations {
    /// The method and the path of the block's route, where it names a route
    /// that can be read.
    pub fn parsed_route(&self) -> (r: Option<(String, String)>)
        ensures
            r.deep_view() == (match self.deep_view().route {
                Some(route) => route_in(route),
                None => None,
            }),
    {
        match &self.route {
            Some(route) => match split_once(trim(route.as_str()).as_str(), " ") {
                Some((method, rest)) => {
                    let path = trim(rest.as_str());
                    if starts_with(path.as_str(), "/") {
                        Some((method, path))
                    } else {
                        None
                    }
                },
                None => None,
            },
            None => None,
        }
    }
}

} // verus!
