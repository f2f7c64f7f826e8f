use vstd::prelude::*;

use crate::forge_arg::ForgeArg;
use crate::strings::join2;

verus! {

/// Where a tool request came from.
#[derive(Debug)]
pub enum ToolSource {
    Argument,
    ToolVersionsFile(String),
    ConfigFile(String),
    Environment(String, String),
}

impl ToolSource {
    pub fn is_argument(&self) -> (r: bool)
        ensures
            r == (*self is Argument),
    {
        match self {
            ToolSource::Argument => true,
            _ => false,
        }
    }

    /// A field-by-field copy.
    pub fn duplicate(&self) -> (r: Self)
        ensures
            r == *self,
    {
        match self {
            ToolSource::Argument => ToolSource::Argument,
            ToolSource::ToolVersionsFile(p) => ToolSource::ToolVersionsFile(p.clone()),
            ToolSource::ConfigFile(p) => ToolSource::ConfigFile(p.clone()),
            ToolSource::Environment(k, v) => ToolSource::Environment(k.clone(), v.clone()),
        }
    }
}

/// How a request names the version it wants.
#[derive(PartialEq, Eq, Structural, Clone, Copy, Debug)]
pub enum RequestKind {
    Version,
    Prefix,
    Ref,
    Path,
    System,
}

/// How a request's version is written after the `@`.
pub open spec fn version_text(kind: RequestKind, version: Seq<char>) -> Seq<char> {
    match kind {
        RequestKind::Version => version,
        RequestKind::Prefix => "prefix:"@ + version,
        RequestKind::Ref => "ref:"@ + version,
        RequestKind::Path => "path:"@ + version,
        RequestKind::System => "system"@,
    }
}

/// How a request is displayed: `<id>@<version>`.
pub open spec fn request_text(r: ToolRequest) -> Seq<char> {
    r.forge.id@ + "@"@ + version_text(r.kind, r.version@)
}

/// One desired version of one tool, with the tools it needs installed first.
#[derive(Debug)]
pub struct ToolRequest {
    pub forge: ForgeArg,
    pub kind: RequestKind,
    pub version: String,
    pub dependencies: Vec<ForgeArg>,
}

impl ToolRequest {
    pub fn forge(&self) -> (r: &ForgeArg)
        ensures
            *r == self.forge,
    {
        &self.forge
    }

    pub fn dependencies(&self) -> (r: &Vec<ForgeArg>)
        ensures
            *r == self.dependencies,
    {
        &self.dependencies
    }

    pub fn is_system(&self) -> (r: bool)
        ensures
            r == (self.kind == RequestKind::System),
    {
        self.kind == RequestKind::System
    }

    /// How the request is displayed.
    pub fn to_string(&self) -> (r: String)
        ensures
            r@ == request_text(*self),
    {
        let v = match self.kind {
            RequestKind::Version => self.version.clone(),
            RequestKind::Prefix => join2("prefix:", self.version.as_str()),
            RequestKind::Ref => join2("ref:", self.version.as_str()),
            RequestKind::Path => join2("path:", self.version.as_str()),
            RequestKind::System => "system".to_owned(),
        };
        join2(join2(self.forge.id.as_str(), "@").as_str(), v.as_str())
    }

    /// A field-by-field copy.
    pub fn duplicate(&self) -> (r: Self)
        ensures
            r.forge == self.forge,
            r.kind == self.kind,
            r.version == self.version,
            r.dependencies@ == self.dependencies@,
    {
        let mut deps: Vec<ForgeArg> = Vec::new();
        let mut i: usize = 0;
        while i < self.dependencies.len()
            invariant
                i <= self.dependencies@.len(),
                deps@ == self.dependencies@.subrange(0, i as int),
            decreases self.dependencies@.len() - i,
        {
            deps.push(self.dependencies[i].duplicate());
            i = i + 1;
            proof {
                assert(deps@ =~= self.dependencies@.subrange(0, i as int));
            }
        }
        proof {
            assert(deps@ =~= self.dependencies@);
        }
        ToolRequest {
            forge: self.forge.duplicate(),
            kind: self.kind,
            version: self.version.clone(),
            dependencies: deps,
        }
    }
}

/// A concrete version that a request resolved to.
#[derive(Debug)]
pub struct ToolVersion {
    pub forge: ForgeArg,
    pub version: String,
    pub request: ToolRequest,
}

/// The requests for one tool from one source, and the versions they resolved to.
#[derive(Debug)]
pub struct ToolVersionList {
    pub forge: ForgeArg,
    pub requests: Vec<ToolRequest>,
    pub versions: Vec<ToolVersion>,
    pub source: ToolSource,
}

impl ToolVersionList {
    pub fn new(forge: ForgeArg, source: ToolSource) -> (r: Self)
        ensures
            r.forge == forge,
            r.source == source,
            r.requests@.len() == 0,
            r.versions@.len() == 0,
    {
        ToolVersionList { forge, requests: Vec::new(), versions: Vec::new(), source }
    }
}

} // verus!
