use vstd::prelude::*;

use crate::registry;
use vstd::std_specs::cmp::{PartialEqSpec, PartialEqSpecImpl};
use crate::strings::{find_colon, first_colon, join2, lemma_colon_from_bounds, slug, slug_of, str_eq};

verus! {

/// The kind of backend that installs a tool.
#[derive(PartialEq, Eq, Structural, Clone, Copy, Debug)]
pub enum ForgeType {
    Asdf,
    Cargo,
    Go,
    Npm,
    Pipx,
    Ubi,
}

/// The tag that names a backend in a `backend:name` string.
pub open spec fn forge_tag(t: ForgeType) -> Seq<char> {
    match t {
        ForgeType::Asdf => "asdf"@,
        ForgeType::Cargo => "cargo"@,
        ForgeType::Go => "go"@,
        ForgeType::Npm => "npm"@,
        ForgeType::Pipx => "pipx"@,
        ForgeType::Ubi => "ubi"@,
    }
}

/// The backend whose tag is `s`, if any.
pub open spec fn forge_type_of(s: Seq<char>) -> Option<ForgeType> {
    if s == "asdf"@ {
        Some(ForgeType::Asdf)
    } else if s == "cargo"@ {
        Some(ForgeType::Cargo)
    } else if s == "go"@ {
        Some(ForgeType::Go)
    } else if s == "npm"@ {
        Some(ForgeType::Npm)
    } else if s == "pipx"@ {
        Some(ForgeType::Pipx)
    } else if s == "ubi"@ {
        Some(ForgeType::Ubi)
    } else {
        None
    }
}

impl ForgeType {
    pub fn as_str(&self) -> (r: &'static str)
        ensures
            r@ == forge_tag(*self),
    {
        match self {
            ForgeType::Asdf => "asdf",
            ForgeType::Cargo => "cargo",
            ForgeType::Go => "go",
            ForgeType::Npm => "npm",
            ForgeType::Pipx => "pipx",
            ForgeType::Ubi => "ubi",
        }
    }

    pub fn parse(s: &str) -> (r: Option<ForgeType>)
        ensures
            r == forge_type_of(s@),
    {
        if str_eq(s, "asdf") {
            Some(ForgeType::Asdf)
        } else if str_eq(s, "cargo") {
            Some(ForgeType::Cargo)
        } else if str_eq(s, "go") {
            Some(ForgeType::Go)
        } else if str_eq(s, "npm") {
            Some(ForgeType::Npm)
        } else if str_eq(s, "pipx") {
            Some(ForgeType::Pipx)
        } else if str_eq(s, "ubi") {
            Some(ForgeType::Ubi)
        } else {
            None
        }
    }
}

/// Name-level aliases: older names of a tool mapped to the current one.
pub open spec fn unalias(name: Seq<char>) -> Seq<char> {
    if name == "nodejs"@ {
        "node"@
    } else if name == "golang"@ {
        "go"@
    } else {
        name
    }
}

/// Maps an older tool name to its current one.
pub fn unalias_forge(name: &str) -> (r: String)
    ensures
        r@ == unalias(name@),
{
    if str_eq(name, "nodejs") {
        "node".to_owned()
    } else if str_eq(name, "golang") {
        "go".to_owned()
    } else {
        name.to_owned()
    }
}

/// The canonical id of a tool: the bare name for asdf, `backend:name` otherwise.
pub open spec fn spec_id(t: ForgeType, name: Seq<char>) -> Seq<char> {
    match t {
        ForgeType::Asdf => name,
        _ => forge_tag(t) + ":"@ + name,
    }
}

/// `<base>/<stem>`.
pub open spec fn path_in(base: Seq<char>, stem: Seq<char>) -> Seq<char> {
    base + "/"@ + stem
}

/// Splits a `[backend:]name` string: a known backend tag before the first `:`
/// selects that backend, anything else is an asdf name.
pub open spec fn split_forge(s: Seq<char>) -> (ForgeType, Seq<char>) {
    let k = first_colon(s);
    if k < s.len() {
        match forge_type_of(s.subrange(0, k as int)) {
            Some(t) => (t, s.subrange(k + 1 as int, s.len() as int)),
            None => (ForgeType::Asdf, s),
        }
    } else {
        (ForgeType::Asdf, s)
    }
}

/// The string that an input is parsed from, after the registry's aliases.
pub open spec fn dealiased(input: Seq<char>) -> Seq<char> {
    match registry::registry_alias(input) {
        Some(a) => a,
        None => input,
    }
}

/// The base directories under which each tool gets its own directory.
pub struct Dirs {
    pub cache: String,
    pub installs: String,
    pub downloads: String,
}

/// The identity of a tool: its backend and name, the id derived from them, and
/// the directories that belong to it.
#[derive(Clone, Debug)]
pub struct ForgeArg {
    pub id: String,
    pub name: String,
    pub forge_type: ForgeType,
    pub input: String,
    pub cache_path: String,
    pub installs_path: String,
    pub downloads_path: String,
}

impl ForgeArg {
    /// The fields that `new` derives from a backend and a name.
    pub open spec fn derived_from(self, t: ForgeType, name: Seq<char>, dirs: Dirs) -> bool {
        &&& self.forge_type == t
        &&& self.name@ == unalias(name)
        &&& self.id@ == spec_id(t, unalias(name))
        &&& self.cache_path@ == path_in(dirs.cache@, slug(self.id@))
        &&& self.installs_path@ == path_in(dirs.installs@, slug(self.id@))
        &&& self.downloads_path@ == path_in(dirs.downloads@, slug(self.id@))
    }

    pub fn new(forge_type: ForgeType, name: &str, dirs: &Dirs) -> (r: Self)
        ensures
            r.derived_from(forge_type, name@, *dirs),
            r.input@ == unalias(name@),
    {
        let name = unalias_forge(name);
        let id = match forge_type {
            ForgeType::Asdf => name.clone(),
            _ => join2(&join2(forge_type.as_str(), ":"), name.as_str()),
        };
        let pathname = slug_of(id.as_str());
        ForgeArg {
            input: name.clone(),
            name,
            forge_type,
            cache_path: join2(&join2(dirs.cache.as_str(), "/"), pathname.as_str()),
            installs_path: join2(&join2(dirs.installs.as_str(), "/"), pathname.as_str()),
            downloads_path: join2(&join2(dirs.downloads.as_str(), "/"), pathname.as_str()),
            id,
        }
    }

    pub fn with_input(self, input: &str) -> (r: Self)
        ensures
            r.input@ == input@,
            r.id == self.id,
            r.name == self.name,
            r.forge_type == self.forge_type,
            r.cache_path == self.cache_path,
            r.installs_path == self.installs_path,
            r.downloads_path == self.downloads_path,
    {
        let mut s = self;
        s.input = input.to_owned();
        s
    }

    /// Parses a user string `[backend:]name`, after the registry's aliases.
    pub fn parse(input: &str, dirs: &Dirs) -> (r: Self)
        ensures
            r.derived_from(split_forge(dealiased(input@)).0, split_forge(dealiased(input@)).1, *dirs),
            r.input@ == input@,
    {
        let s = match registry::get(input) {
            Some(a) => a,
            None => input,
        };
        let k = find_colon(s);
        let n = s.unicode_len();
        proof {
            lemma_colon_from_bounds(s@, 0);
        }
        if k < n {
            let prefix = s.substring_char(0, k);
            match ForgeType::parse(prefix) {
                Some(t) => {
                    let name = s.substring_char(k + 1, n);
                    return Self::new(t, name, dirs).with_input(input);
                },
                None => {},
            }
        }
        Self::new(ForgeType::Asdf, s, dirs).with_input(input)
    }

    /// A field-by-field copy.
    pub fn duplicate(&self) -> (r: Self)
        ensures
            r == *self,
    {
        ForgeArg {
            id: self.id.clone(),
            name: self.name.clone(),
            forge_type: self.forge_type,
            input: self.input.clone(),
            cache_path: self.cache_path.clone(),
            installs_path: self.installs_path.clone(),
            downloads_path: self.downloads_path.clone(),
        }
    }

    /// How the id is displayed.
    pub fn to_string(&self) -> (r: String)
        ensures
            r@ == self.id@,
    {
        self.id.clone()
    }
}

impl PartialEq for ForgeArg {
    fn eq(&self, other: &ForgeArg) -> (r: bool) {
        self.id == other.id
    }
}

impl PartialEqSpecImpl for ForgeArg {
    open spec fn obeys_eq_spec() -> bool {
        true
    }

    open spec fn eq_spec(&self, other: &ForgeArg) -> bool {
        self.id@ == other.id@
    }
}

impl Eq for ForgeArg {
}

/// Relies on `String`'s `Hash`: it feeds the string to the hasher and does
/// nothing else.
pub assume_specification<H: core::hash::Hasher>[ <String as core::hash::Hash>::hash::<H> ](
    s: &String,
    state: &mut H,
);

/// Hashes the id alone, so that equal identities hash alike.
impl core::hash::Hash for ForgeArg {
    fn hash<H: core::hash::Hasher>(&self, state: &mut H) {
        self.id.hash(state);
    }
}

/// Two identities are equal exactly when their ids are, whatever input they came from.
pub proof fn lemma_eq_iff_same_id(a: ForgeArg, b: ForgeArg)
    ensures
        PartialEqSpec::eq_spec(&a, &b) <==> a.id@ == b.id@,
        a.id@ == b.id@ ==> PartialEqSpec::eq_spec(&b, &a),
{
}

/// Every directory stem derived from an id holds neither `/` nor `:`.
pub proof fn lemma_slug_has_no_separator(id: Seq<char>)
    ensures
        slug(id).len() == id.len(),
        forall|i: int| 0 <= i < slug(id).len() ==> slug(id)[i] != '/' && slug(id)[i] != ':',
{
}

} // verus!
