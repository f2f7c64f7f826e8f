use toolset::forge_arg::{Dirs, ForgeArg, ForgeType};
use std::collections::hash_map::DefaultHasher;
use std::hash::{Hash, Hasher};
use toolset::registry;

const INSTALLS: &str = "/home/user/.local/share/mise/installs";

fn dirs() -> Dirs {
    Dirs {
        cache: "/home/user/.cache/mise".to_string(),
        installs: INSTALLS.to_string(),
        downloads: "/home/user/.local/share/mise/downloads".to_string(),
    }
}

#[test]
fn test_forge_arg() {
    let d = dirs();
    let t = |s: &str, id: &str, name: &str, t: ForgeType| {
        let fa = ForgeArg::parse(s, &d);
        assert_eq!(fa.id, id);
        assert_eq!(fa.name, name);
        assert_eq!(fa.forge_type, t);
    };
    let asdf = |s, id, name| t(s, id, name, ForgeType::Asdf);
    let cargo = |s, id, name| t(s, id, name, ForgeType::Cargo);
    let npm = |s, id, name| t(s, id, name, ForgeType::Npm);

    asdf("asdf:node", "node", "node");
    asdf("node", "node", "node");
    asdf("", "", "");
    cargo("cargo:eza", "cargo:eza", "eza");
    npm("npm:@antfu/ni", "npm:@antfu/ni", "@antfu/ni");
    npm("npm:prettier", "npm:prettier", "prettier");
}

#[test]
fn test_forge_arg_pathname() {
    let d = dirs();
    let t = |s: &str, expected: &str| {
        let fa = ForgeArg::parse(s, &d);
        let actual = fa.installs_path;
        let expected = std::path::Path::new(INSTALLS).join(expected);
        assert_eq!(actual, expected.to_string_lossy());
    };
    t("asdf:node", "node");
    t("node", "node");
    t("", "");
    t("cargo:eza", "cargo-eza");
    t("npm:@antfu/ni", "npm-@antfu-ni");
    t("npm:prettier", "npm-prettier");
}

#[test]
fn registry_alias_resolves_ubi() {
    assert_eq!(registry::get("ubi"), Some("cargo:ubi"));
    assert_eq!(registry::get("node"), None);
    let fa = ForgeArg::parse("ubi", &dirs());
    assert_eq!(fa.id, "cargo:ubi");
    assert_eq!(fa.name, "ubi");
    assert_eq!(fa.forge_type, ForgeType::Cargo);
    assert_eq!(fa.input, "ubi");
}

#[test]
fn equality_ignores_input() {
    let d = dirs();
    let a = ForgeArg::parse("asdf:node", &d);
    let b = ForgeArg::parse("node", &d);
    assert_ne!(a.input, b.input);
    assert!(a == b);
    let c = ForgeArg::parse("cargo:node", &d);
    assert!(a != c);
}

#[test]
fn paths_have_no_separators_in_stem() {
    let d = dirs();
    let fa = ForgeArg::parse("npm:@scope/pkg:x", &d);
    assert_eq!(fa.id, "npm:@scope/pkg:x");
    let stem = fa.installs_path.strip_prefix(&format!("{}/", INSTALLS)).unwrap();
    assert_eq!(stem, "npm-@scope-pkg-x");
    assert!(!stem.contains('/') && !stem.contains(':'));
    assert_eq!(fa.cache_path, "/home/user/.cache/mise/npm-@scope-pkg-x");
    assert_eq!(fa.downloads_path, "/home/user/.local/share/mise/downloads/npm-@scope-pkg-x");
}

#[test]
fn slug_of_prettier() {
    let fa = ForgeArg::parse("npm:prettier", &dirs());
    assert_eq!(fa.installs_path, format!("{}/npm-prettier", INSTALLS));
}

#[test]
fn unknown_backend_prefix_is_asdf_name() {
    let fa = ForgeArg::parse("foo:bar", &dirs());
    assert_eq!(fa.forge_type, ForgeType::Asdf);
    assert_eq!(fa.id, "foo:bar");
    assert_eq!(fa.installs_path, format!("{}/foo-bar", INSTALLS));
}

#[test]
fn name_aliases_are_applied() {
    let fa = ForgeArg::parse("nodejs", &dirs());
    assert_eq!(fa.id, "node");
    assert_eq!(fa.input, "nodejs");
    let fa = ForgeArg::new(ForgeType::Cargo, "golang", &dirs());
    assert_eq!(fa.id, "cargo:go");
    assert_eq!(fa.to_string(), "cargo:go");
}

#[test]
fn forge_type_tags_round_trip() {
    for t in [ForgeType::Asdf, ForgeType::Cargo, ForgeType::Go, ForgeType::Npm, ForgeType::Pipx, ForgeType::Ubi] {
        assert_eq!(ForgeType::parse(t.as_str()), Some(t));
    }
    assert_eq!(ForgeType::parse("nope"), None);
}

fn hash_of(fa: &ForgeArg) -> u64 {
    let mut h = DefaultHasher::new();
    fa.hash(&mut h);
    h.finish()
}

#[test]
fn equal_ids_hash_alike() {
    let a = ForgeArg::parse("asdf:node", &dirs());
    let b = ForgeArg::parse("node", &dirs());
    assert_eq!(hash_of(&a), hash_of(&b));
    let mut set = std::collections::HashSet::new();
    set.insert(a);
    assert!(!set.insert(b));
}
