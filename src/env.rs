use vstd::prelude::*;

use crate::strings::str_eq;
use crate::toolset::strs;

verus! {

broadcast use vstd::seq_lib::group_seq_properties;

/// The characters of the key and of the value of each pair.
pub open spec fn pair_views(s: Seq<(String, String)>) -> Seq<(Seq<char>, Seq<char>)> {
    s.map_values(|p: (String, String)| (p.0@, p.1@))
}

/// The map that assigning the pairs in order leaves: a later pair overrides
/// an earlier one with the same key.
pub open spec fn pairs_map(s: Seq<(Seq<char>, Seq<char>)>) -> Map<Seq<char>, Seq<char>>
    decreases s.len(),
{
    if s.len() == 0 {
        Map::empty()
    } else {
        pairs_map(s.drop_last()).insert(s.last().0, s.last().1)
    }
}

/// Keys through which a tool asks for a directory to be added to `PATH`.
pub open spec fn is_add_path(k: Seq<char>) -> bool {
    k == "MISE_ADD_PATH"@ || k == "RTX_ADD_PATH"@
}

/// Keys that carry tool options, never exported.
pub open spec fn is_tool_opt(k: Seq<char>) -> bool {
    "RTX_TOOL_OPTS__"@.is_prefix_of(k) || "MISE_TOOL_OPTS__"@.is_prefix_of(k)
}

/// Keys that pass into the environment as they are.
pub open spec fn exported(p: (Seq<char>, Seq<char>)) -> bool {
    !is_add_path(p.0) && !is_tool_opt(p.0)
}

pub open spec fn add_path_pair(p: (Seq<char>, Seq<char>)) -> bool {
    is_add_path(p.0)
}

/// The strings joined with `:` between each two.
pub open spec fn join_colon(v: Seq<Seq<char>>) -> Seq<char>
    decreases v.len(),
{
    if v.len() == 0 {
        Seq::empty()
    } else if v.len() == 1 {
        v[0]
    } else {
        join_colon(v.drop_last()) + ":"@ + v.last()
    }
}

pub open spec fn add_path_pred() -> spec_fn((Seq<char>, Seq<char>)) -> bool {
    |p: (Seq<char>, Seq<char>)| add_path_pair(p)
}

pub open spec fn exported_pred() -> spec_fn((Seq<char>, Seq<char>)) -> bool {
    |p: (Seq<char>, Seq<char>)| exported(p)
}

pub open spec fn value_of() -> spec_fn((Seq<char>, Seq<char>)) -> Seq<char> {
    |p: (Seq<char>, Seq<char>)| p.1
}

/// The values given under the add-path keys, joined with `:`.
pub open spec fn add_paths(s: Seq<(Seq<char>, Seq<char>)>) -> Seq<char> {
    join_colon(s.filter(add_path_pred()).map_values(value_of()))
}

/// The assignments that make up the environment of the tools: their exported
/// pairs in reverse, so that the first tool to set a key wins; then `PATH`
/// from the add-path values, if they join to anything; then the
/// configuration's own variables.
pub open spec fn env_assignments(
    tools: Seq<(Seq<char>, Seq<char>)>,
    config: Seq<(Seq<char>, Seq<char>)>,
) -> Seq<(Seq<char>, Seq<char>)> {
    let path = if add_paths(tools).len() > 0 {
        seq![("PATH"@, add_paths(tools))]
    } else {
        Seq::empty()
    };
    tools.filter(exported_pred()).reverse() + path + config
}

/// A set of environment variables, kept as the assignments that produced it.
#[derive(Debug)]
pub struct EnvVars {
    pub entries: Vec<(String, String)>,
}

impl View for EnvVars {
    type V = Map<Seq<char>, Seq<char>>;

    open spec fn view(&self) -> Map<Seq<char>, Seq<char>> {
        pairs_map(pair_views(self.entries@))
    }
}

/// A key is in the map of assignments exactly when some pair assigns it.
pub proof fn lemma_pairs_map_has(s: Seq<(Seq<char>, Seq<char>)>, k: Seq<char>)
    ensures
        pairs_map(s).contains_key(k) <==> exists|i: int| 0 <= i < s.len() && s[i].0 == k,
    decreases s.len(),
{
    if s.len() > 0 {
        let rest = s.drop_last();
        lemma_pairs_map_has(rest, k);
        if exists|i: int| 0 <= i < rest.len() && rest[i].0 == k {
            let i = choose|i: int| 0 <= i < rest.len() && rest[i].0 == k;
            assert(s[i] == rest[i]);
        }
        if exists|i: int| 0 <= i < s.len() && s[i].0 == k {
            let i = choose|i: int| 0 <= i < s.len() && s[i].0 == k;
            if i < rest.len() {
                assert(rest[i] == s[i]);
            }
        }
    }
}

/// A key's value in the map of assignments is the one of its last assignment.
pub proof fn lemma_pairs_map_value(s: Seq<(Seq<char>, Seq<char>)>, k: Seq<char>, i: int)
    requires
        0 <= i < s.len(),
        s[i].0 == k,
        forall|j: int| i < j < s.len() ==> s[j].0 != k,
    ensures
        pairs_map(s).contains_key(k),
        pairs_map(s)[k] == s[i].1,
    decreases s.len(),
{
    let rest = s.drop_last();
    if i < s.len() - 1 {
        assert(s[s.len() - 1].0 != k);
        assert(rest[i] == s[i]);
        assert forall|j: int| i < j < rest.len() implies rest[j].0 != k by {
            assert(rest[j] == s[j]);
        }
        lemma_pairs_map_value(rest, k, i);
    }
}

/// Assigning `a` and then `b` is `b` laid over `a`.
pub proof fn lemma_pairs_map_concat(a: Seq<(Seq<char>, Seq<char>)>, b: Seq<(Seq<char>, Seq<char>)>)
    ensures
        pairs_map(a + b) == pairs_map(a).union_prefer_right(pairs_map(b)),
    decreases b.len(),
{
    if b.len() == 0 {
        assert(a + b =~= a);
        assert(pairs_map(a).union_prefer_right(pairs_map(b)) =~= pairs_map(a));
    } else {
        lemma_pairs_map_concat(a, b.drop_last());
        assert((a + b).drop_last() =~= a + b.drop_last());
        assert((a + b).last() == b.last());
        assert(pairs_map(a + b) =~= pairs_map(a).union_prefer_right(pairs_map(b)));
    }
}

/// Whether `s` starts with `prefix`.
pub fn starts_with(s: &str, prefix: &str) -> (r: bool)
    ensures
        r == prefix@.is_prefix_of(s@),
{
    let n = prefix.unicode_len();
    if n > s.unicode_len() {
        return false;
    }
    let mut i: usize = 0;
    while i < n
        invariant
            n == prefix@.len(),
            n <= s@.len(),
            i <= n,
            forall|j: int| 0 <= j < i ==> prefix@[j] == s@[j],
        decreases n - i,
    {
        if prefix.get_char(i) != s.get_char(i) {
            return false;
        }
        i = i + 1;
    }
    true
}

fn is_add_path_key(k: &String) -> (r: bool)
    ensures
        r == is_add_path(k@),
{
    str_eq(k.as_str(), "MISE_ADD_PATH") || str_eq(k.as_str(), "RTX_ADD_PATH")
}

fn is_tool_opt_key(k: &String) -> (r: bool)
    ensures
        r == is_tool_opt(k@),
{
    starts_with(k.as_str(), "RTX_TOOL_OPTS__") || starts_with(k.as_str(), "MISE_TOOL_OPTS__")
}

impl EnvVars {
    pub fn new() -> (r: Self)
        ensures
            r@ == Map::<Seq<char>, Seq<char>>::empty(),
    {
        EnvVars { entries: Vec::new() }
    }

    /// The value of `key`, if it is set.
    pub fn get(&self, key: &str) -> (r: Option<&String>)
        ensures
            match r {
                Some(v) => self@.contains_key(key@) && self@[key@] == v@,
                None => !self@.contains_key(key@),
            },
    {
        let ghost s = pair_views(self.entries@);
        let mut i: usize = self.entries.len();
        while i > 0
            invariant
                i <= self.entries@.len(),
                s == pair_views(self.entries@),
                forall|j: int| i <= j < s.len() ==> s[j].0 != key@,
            decreases i,
        {
            i = i - 1;
            if str_eq(self.entries[i].0.as_str(), key) {
                proof {
                    assert(s[i as int].0 == key@);
                    lemma_pairs_map_value(s, key@, i as int);
                }
                return Some(&self.entries[i].1);
            }
        }
        proof {
            lemma_pairs_map_has(s, key@);
        }
        None
    }

    /// Sets `key` to `value`.
    pub fn insert(&mut self, key: String, value: String)
        ensures
            final(self)@ == old(self)@.insert(key@, value@),
    {
        let ghost s = pair_views(self.entries@);
        self.entries.push((key, value));
        proof {
            assert(pair_views(self.entries@).drop_last() =~= s);
        }
    }

    /// Lays `other` over these variables: its values win.
    pub fn extend(&mut self, other: EnvVars)
        ensures
            final(self)@ == old(self)@.union_prefer_right(other@),
    {
        let ghost a = pair_views(self.entries@);
        let ghost b = pair_views(other.entries@);
        let mut o = other.entries;
        self.entries.append(&mut o);
        proof {
            assert(pair_views(self.entries@) =~= a + b);
            lemma_pairs_map_concat(a, b);
        }
    }
}

/// The environment that the tools' variables and the configuration's make:
/// `tools` holds the pairs that the installed tools export, in the order of
/// the toolset. The first tool to set a key wins; the add-path values,
/// joined with `:`, become `PATH`; tool options are dropped; the
/// configuration's variables are laid over the result.
pub fn compose_env(tools: &Vec<(String, String)>, config: EnvVars) -> (r: EnvVars)
    ensures
        r@ == pairs_map(env_assignments(pair_views(tools@), pair_views(config.entries@))),
{
    let ghost t = pair_views(tools@);
    let mut kept: Vec<(String, String)> = Vec::new();
    let mut add = String::new();
    let mut n_add: usize = 0;
    let ghost mut vals: Seq<Seq<char>> = Seq::empty();
    let mut i: usize = 0;
    while i < tools.len()
        invariant
            t == pair_views(tools@),
            i <= tools@.len(),
            pair_views(kept@) == t.subrange(0, i as int).filter(exported_pred()),
            vals == t.subrange(0, i as int).filter(add_path_pred()).map_values(value_of()),
            add@ == join_colon(vals),
            n_add == vals.len(),
            n_add <= i,
        decreases tools@.len() - i,
    {
        let ghost pre = t.subrange(0, i as int);
        let ghost p = t[i as int];
        let ghost kept0 = pair_views(kept@);
        proof {
            assert(t.subrange(0, i + 1) =~= pre.push(p));
            pre.lemma_filter_push(p, exported_pred());
            pre.lemma_filter_push(p, add_path_pred());
        }
        let key = &tools[i].0;
        if is_add_path_key(key) {
            let ghost v0 = vals;
            if n_add > 0 {
                add.append(":");
            }
            add.append(tools[i].1.as_str());
            n_add = n_add + 1;
            proof {
                vals = v0.push(p.1);
                assert(pre.filter(add_path_pred()).push(p).map_values(value_of()) =~= v0.push(p.1));
                assert(vals.drop_last() =~= v0);
            }
        } else if !is_tool_opt_key(key) {
            kept.push((tools[i].0.clone(), tools[i].1.clone()));
            proof {
                assert(pair_views(kept@) =~= kept0.push(p));
            }
        }
        i = i + 1;
    }
    proof {
        assert(t.subrange(0, tools@.len() as int) =~= t);
    }
    let ghost k0 = pair_views(kept@);
    let ghost klen = kept@.len();
    let mut out: Vec<(String, String)> = Vec::new();
    while kept.len() > 0
        invariant
            kept@.len() <= klen,
            klen == k0.len(),
            pair_views(kept@) == k0.subrange(0, kept@.len() as int),
            pair_views(out@) == k0.subrange(kept@.len() as int, klen as int).reverse(),
        decreases kept@.len(),
    {
        let ghost m = kept@.len() as int;
        let ghost out0 = pair_views(out@);
        let ghost kept_old = kept@;
        match kept.pop() {
            Some(p) => {
                out.push(p);
                proof {
                    assert(pair_views(kept@) =~= k0.subrange(0, kept@.len() as int));
                    assert(p == kept_old[m - 1]);
                    assert(pair_views(kept_old)[m - 1] == (p.0@, p.1@));
                    assert(k0.subrange(0, m)[m - 1] == k0[m - 1]);
                    assert(k0[m - 1] == (p.0@, p.1@));
                    assert(pair_views(out@) =~= out0.push((p.0@, p.1@)));
                    assert(k0.subrange(m - 1, klen as int).reverse() =~= k0.subrange(m, klen as int).reverse().push(
                        k0[m - 1],
                    ));
                }
            },
            None => {},
        }
    }
    proof {
        assert(k0.subrange(0, klen as int) =~= k0);
    }
    let ghost head = pair_views(out@);
    if add.as_str().unicode_len() > 0 {
        out.push(("PATH".to_owned(), add));
        proof {
            assert(pair_views(out@) =~= head + seq![("PATH"@, add_paths(t))]);
        }
    }
    let ghost mid = pair_views(out@);
    let ghost c = pair_views(config.entries@);
    let mut cfg = config.entries;
    out.append(&mut cfg);
    proof {
        assert(pair_views(out@) =~= mid + c);
        assert(pair_views(out@) =~= env_assignments(t, c));
    }
    EnvVars { entries: out }
}

/// The directories joined into one `PATH` value, in order.
pub fn join_paths(dirs: &Vec<String>) -> (r: String)
    ensures
        r@ == join_colon(strs(dirs@)),
{
    let mut out = String::new();
    let mut i: usize = 0;
    while i < dirs.len()
        invariant
            i <= dirs@.len(),
            out@ == join_colon(strs(dirs@.subrange(0, i as int))),
        decreases dirs@.len() - i,
    {
        let ghost pre = strs(dirs@.subrange(0, i as int));
        if i > 0 {
            out.append(":");
        }
        out.append(dirs[i].as_str());
        i = i + 1;
        proof {
            let now = strs(dirs@.subrange(0, i as int));
            assert(now =~= pre.push(dirs@[i - 1]@));
            assert(now.drop_last() =~= pre);
        }
    }
    proof {
        assert(dirs@.subrange(0, dirs@.len() as int) =~= dirs@);
    }
    out
}

/// The directories of `PATH` in the order they are searched: the
/// configuration's directories, the `PATH` that the tools' variables set (if
/// any), the tools' bin directories, then the directories that `PATH` held
/// before.
pub open spec fn path_dirs(
    config_dirs: Seq<Seq<char>>,
    env: Map<Seq<char>, Seq<char>>,
    bin_paths: Seq<Seq<char>>,
    seed: Seq<Seq<char>>,
) -> Seq<Seq<char>> {
    let own = if env.contains_key("PATH"@) {
        seq![env["PATH"@]]
    } else {
        Seq::empty()
    };
    config_dirs + own + bin_paths + seed
}

/// The tools' environment with `PATH` set to every directory that the
/// configuration, the tools and the former `PATH` contribute.
pub fn env_with_path(
    env: EnvVars,
    config_dirs: Vec<String>,
    bin_paths: Vec<String>,
    seed: Vec<String>,
) -> (r: EnvVars)
    ensures
        r@ == env@.insert(
            "PATH"@,
            join_colon(path_dirs(strs(config_dirs@), env@, strs(bin_paths@), strs(seed@))),
        ),
{
    let mut dirs = config_dirs;
    let ghost d0 = strs(dirs@);
    match env.get("PATH") {
        Some(p) => {
            dirs.push(p.clone());
        },
        None => {},
    }
    let ghost d1 = strs(dirs@);
    let mut b = bin_paths;
    let ghost bv = strs(b@);
    dirs.append(&mut b);
    let ghost d2 = strs(dirs@);
    let mut s = seed;
    let ghost sv = strs(s@);
    dirs.append(&mut s);
    proof {
        assert(d2 =~= d1 + bv);
        assert(strs(dirs@) =~= d2 + sv);
        if env@.contains_key("PATH"@) {
            assert(d1 =~= d0 + seq![env@["PATH"@]]);
        } else {
            assert(d1 =~= d0 + Seq::<Seq<char>>::empty());
        }
        assert(strs(dirs@) =~= path_dirs(d0, env@, bv, sv));
    }
    let path = join_paths(&dirs);
    let mut r = env;
    r.insert("PATH".to_owned(), path);
    r
}

/// The login-time environment with the tools' environment laid over it.
pub fn full_env(pristine: EnvVars, with_path: EnvVars) -> (r: EnvVars)
    ensures
        r@ == pristine@.union_prefer_right(with_path@),
{
    let mut r = pristine;
    r.extend(with_path);
    r
}

/// The tools' environment never holds an add-path key or a tool option
/// unless the configuration sets it, and the add-path values, joined with
/// `:`, are its `PATH` unless the configuration sets one.
pub proof fn lemma_env_hides_add_path(
    tools: Seq<(Seq<char>, Seq<char>)>,
    config: Seq<(Seq<char>, Seq<char>)>,
)
    ensures
        forall|k: Seq<char>|
            (is_add_path(k) || is_tool_opt(k)) && !pairs_map(config).contains_key(k)
                ==> !(#[trigger] pairs_map(env_assignments(tools, config)).contains_key(k)),
        add_paths(tools).len() > 0 && !pairs_map(config).contains_key("PATH"@) ==> {
            &&& pairs_map(env_assignments(tools, config)).contains_key("PATH"@)
            &&& pairs_map(env_assignments(tools, config))["PATH"@] == add_paths(tools)
        },
{
    reveal_strlit("PATH");
    reveal_strlit("MISE_ADD_PATH");
    reveal_strlit("RTX_ADD_PATH");
    reveal_strlit("RTX_TOOL_OPTS__");
    reveal_strlit("MISE_TOOL_OPTS__");
    let kept = tools.filter(exported_pred());
    let path = if add_paths(tools).len() > 0 {
        seq![("PATH"@, add_paths(tools))]
    } else {
        Seq::empty()
    };
    let head = kept.reverse() + path;
    let all = env_assignments(tools, config);
    assert(all == head + config);
    lemma_pairs_map_concat(head, config);
    assert(!is_add_path("PATH"@)) by {
        assert("PATH"@.len() != "MISE_ADD_PATH"@.len());
        assert("PATH"@.len() != "RTX_ADD_PATH"@.len());
    }
    assert(!is_tool_opt("PATH"@)) by {
        assert("PATH"@.len() < "RTX_TOOL_OPTS__"@.len());
        assert("PATH"@.len() < "MISE_TOOL_OPTS__"@.len());
    }
    assert forall|k: Seq<char>|
        (is_add_path(k) || is_tool_opt(k)) && !pairs_map(config).contains_key(k)
            implies !(#[trigger] pairs_map(all).contains_key(k)) by {
        lemma_pairs_map_has(head, k);
        if pairs_map(head).contains_key(k) {
            let i = choose|i: int| 0 <= i < head.len() && head[i].0 == k;
            if i < kept.len() {
                assert(head[i] == kept[kept.len() - 1 - i]);
                tools.lemma_filter_pred(exported_pred(), kept.len() - 1 - i);
            } else {
                assert(head[i] == path[i - kept.len()]);
            }
        }
    }
    if add_paths(tools).len() > 0 && !pairs_map(config).contains_key("PATH"@) {
        assert(head.drop_last() =~= kept.reverse());
        assert(head.last() == ("PATH"@, add_paths(tools)));
    }
}

/// Each layer of the environment holds the one below it: the login-time
/// environment under the tools' environment with `PATH` holds every variable
/// of the latter, and that one holds every variable of the tools'
/// environment but `PATH`, which it replaces with the composed search path.
pub proof fn lemma_env_layers(
    env: Map<Seq<char>, Seq<char>>,
    path: Seq<char>,
    pristine: Map<Seq<char>, Seq<char>>,
)
    ensures
        env.remove("PATH"@).submap_of(env.insert("PATH"@, path)),
        env.insert("PATH"@, path).submap_of(pristine.union_prefer_right(env.insert("PATH"@, path))),
{
}

} // verus!
