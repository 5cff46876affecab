//! What a scanned repository publishes for the cross-service checks.

use crate::duplicate::{duplicate_all, duplicate_option, Duplicate};
use crate::operation::{OperationKey, OperationKeyModel};
use crate::text::copy_option;
use vstd::prelude::*;

verus! {

/// The schema version of a capture artifact that this library reads.
pub const CAPTURE_ARTIFACT_VERSION: u32 = 3;

/// The side of an operation a service is on.
#[derive(Debug, Clone, Copy, PartialEq, Eq, Structural)]
pub enum ManifestRole {
    Producer,
    Consumer,
}

/// The half of an operation a type belongs to.
#[derive(Debug, Clone, Copy, PartialEq, Eq, Structural)]
pub enum ManifestTypeKind {
    Request,
    Response,
}

/// How a manifest type was resolved before the capture.
#[derive(Debug, Clone, Copy, PartialEq, Eq, Structural)]
pub enum ManifestTypeState {
    Explicit,
    Implicit,
    Unknown,
}

/// One type a service declares for one of its operations.
#[derive(Debug, Clone, PartialEq, Eq)]
pub struct TypeManifestEntry {
    pub key: OperationKey,
    pub role: ManifestRole,
    pub type_kind: ManifestTypeKind,
    pub type_alias: String,
    pub file_path: String,
    pub line_number: u32,
    pub type_state: ManifestTypeState,
    pub expanded_definition: Option<String>,
}

/// What a [`TypeManifestEntry`] holds.
pub struct TypeManifestEntryModel {
    pub key: OperationKeyModel,
    pub role: ManifestRole,
    pub type_kind: ManifestTypeKind,
    pub type_alias: Seq<char>,
    pub file_path: Seq<char>,
    pub line_number: u32,
    pub type_state: ManifestTypeState,
    pub expanded_definition: Option<Seq<char>>,
}

impl DeepView for TypeManifestEntry {
    type V = TypeManifestEntryModel;

    open spec fn deep_view(&self) -> TypeManifestEntryModel {
        TypeManifestEntryModel {
            key: self.key.deep_view(),
            role: self.role,
            type_kind: self.type_kind,
            type_alias: self.type_alias@,
            file_path: self.file_path@,
            line_number: self.line_number,
            type_state: self.type_state,
            expanded_definition: self.expanded_definition.deep_view(),
        }
    }
}

impl Duplicate for TypeManifestEntry {
    fn duplicate(&self) -> (r: Self) {
        TypeManifestEntry {
            key: self.key.duplicate(),
            role: self.role,
            type_kind: self.type_kind,
            type_alias: self.type_alias.clone(),
            file_path: self.file_path.clone(),
            line_number: self.line_number,
            type_state: self.type_state,
            expanded_definition: copy_option(&self.expanded_definition),
        }
    }
}

/// The stub package of a service, as it is stored.
#[derive(Debug, Clone, PartialEq, Eq)]
pub struct CaptureStubArtifact {
    pub artifact_version: u32,
    pub package_name: String,
    pub ts_version: String,
    pub bare_checkout: bool,
}

/// What a [`CaptureStubArtifact`] holds.
pub struct CaptureStubArtifactModel {
    pub artifact_version: u32,
    pub package_name: Seq<char>,
    pub ts_version: Seq<char>,
    pub bare_checkout: bool,
}

impl DeepView for CaptureStubArtifact {
    type V = CaptureStubArtifactModel;

    open spec fn deep_view(&self) -> CaptureStubArtifactModel {
        CaptureStubArtifactModel {
            artifact_version: self.artifact_version,
            package_name: self.package_name@,
            ts_version: self.ts_version@,
            bare_checkout: self.bare_checkout,
        }
    }
}

impl Duplicate for CaptureStubArtifact {
    fn duplicate(&self) -> (r: Self) {
        CaptureStubArtifact {
            artifact_version: self.artifact_version,
            package_name: self.package_name.clone(),
            ts_version: self.ts_version.clone(),
            bare_checkout: self.bare_checkout,
        }
    }
}

/// A scanned repository or one of its services.
#[derive(Debug, Clone, PartialEq, Eq)]
pub struct CloudRepoData {
    pub repo_name: String,
    pub service_name: Option<String>,
    pub type_manifest: Option<Vec<TypeManifestEntry>>,
    pub capture_stub: Option<CaptureStubArtifact>,
}

/// What a [`CloudRepoData`] holds.
pub struct CloudRepoDataModel {
    pub repo_name: Seq<char>,
    pub service_name: Option<Seq<char>>,
    pub type_manifest: Option<Seq<TypeManifestEntryModel>>,
    pub capture_stub: Option<CaptureStubArtifactModel>,
}

impl DeepView for CloudRepoData {
    type V = CloudRepoDataModel;

    open spec fn deep_view(&self) -> CloudRepoDataModel {
        CloudRepoDataModel {
            repo_name: self.repo_name@,
            service_name: self.service_name.deep_view(),
            type_manifest: self.type_manifest.deep_view(),
            capture_stub: self.capture_stub.deep_view(),
        }
    }
}

impl Duplicate for CloudRepoData {
    fn duplicate(&self) -> (r: Self) {
        CloudRepoData {
            repo_name: self.repo_name.clone(),
            service_name: copy_option(&self.service_name),
            type_manifest: match &self.type_manifest {
                Some(entries) => Some(duplicate_all(entries)),
                None => None,
            },
            capture_stub: duplicate_option(&self.capture_stub),
        }
    }
}

} // verus!
