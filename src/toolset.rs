use vstd::prelude::*;

use crate::forge_arg::ForgeArg;
use crate::report::join_words;
use crate::scheduler::ascending_below;
use crate::tool::{request_text, ToolRequest, ToolSource, ToolVersionList};

verus! {

broadcast use vstd::seq_lib::group_seq_properties;

/// The characters of each string.
pub open spec fn strs(v: Seq<String>) -> Seq<Seq<char>> {
    v.map_values(|s: String| s@)
}

/// Whether some list in `s` belongs to the tool with id `id`.
pub open spec fn has_id(s: Seq<ToolVersionList>, id: Seq<char>) -> bool {
    exists|i: int| 0 <= i < s.len() && s[i].forge.id@ == id
}

/// No two lists in `s` belong to the same tool.
pub open spec fn distinct_ids(s: Seq<ToolVersionList>) -> bool {
    forall|i: int, j: int|
        0 <= i < s.len() && 0 <= j < s.len() && i != j ==> s[i].forge.id@ != s[j].forge.id@
}

/// Keeps the lists whose tool has no list in `s`.
pub open spec fn absent_from(s: Seq<ToolVersionList>) -> spec_fn(ToolVersionList) -> bool {
    |t: ToolVersionList| !has_id(s, t.forge.id@)
}

/// `before` with `tvr` appended to the requests of the list of its tool.
pub open spec fn request_added(
    before: Seq<ToolVersionList>,
    after: Seq<ToolVersionList>,
    tvr: ToolRequest,
) -> bool {
    &&& after.len() == before.len()
    &&& forall|i: int|
        0 <= i < before.len() ==> if before[i].forge.id@ == tvr.forge.id@ {
            &&& after[i].forge == before[i].forge
            &&& after[i].source == before[i].source
            &&& after[i].versions == before[i].versions
            &&& after[i].requests@ == before[i].requests@.push(tvr)
        } else {
            after[i] == before[i]
        }
}

/// `before` followed by a new list of `tvr`'s tool, from `source`, that holds `tvr` alone.
pub open spec fn list_started(
    before: Seq<ToolVersionList>,
    after: Seq<ToolVersionList>,
    tvr: ToolRequest,
    source: ToolSource,
) -> bool {
    &&& after.len() == before.len() + 1
    &&& after.subrange(0, before.len() as int) == before
    &&& after.last().forge == tvr.forge
    &&& after.last().source == source
    &&& after.last().requests@ == seq![tvr]
    &&& after.last().versions@.len() == 0
}

/// Every position of a version of the lists `0..n` that are shown.
pub open spec fn current_pairs(ts: Toolset, installed: Seq<Vec<bool>>, n: int) -> Seq<(usize, usize)>
    decreases n,
{
    if n <= 0 {
        Seq::empty()
    } else {
        current_pairs(ts, installed, n - 1) + if ts.shown(installed, n - 1) {
            Seq::new(ts.versions@[n - 1].versions@.len(), |j: int| ((n - 1) as usize, j as usize))
        } else {
            Seq::empty()
        }
    }
}

/// Every position of a current version points at a version.
pub proof fn lemma_current_pairs_in_bounds(ts: Toolset, installed: Seq<Vec<bool>>, n: int)
    requires
        ts.fits(installed),
        n <= ts.versions@.len(),
    ensures
        forall|k: int| 0 <= k < current_pairs(ts, installed, n).len() ==> {
            &&& (#[trigger] current_pairs(ts, installed, n)[k]).0 < installed.len()
            &&& current_pairs(ts, installed, n)[k].1 < installed[current_pairs(ts, installed, n)[k].0 as int]@.len()
        },
    decreases n,
{
    if n > 0 {
        lemma_current_pairs_in_bounds(ts, installed, n - 1);
        let a = current_pairs(ts, installed, n - 1);
        let c = current_pairs(ts, installed, n);
        assert forall|k: int| 0 <= k < c.len() implies {
            &&& (#[trigger] c[k]).0 < installed.len()
            &&& c[k].1 < installed[c[k].0 as int]@.len()
        } by {
            let b = if ts.shown(installed, n - 1) {
                Seq::new(ts.versions@[n - 1].versions@.len(), |j: int| ((n - 1) as usize, j as usize))
            } else {
                Seq::empty()
            };
            assert(c == a + b);
            if k < a.len() {
                assert(c[k] == a[k]);
            } else {
                assert(c[k] == b[k - a.len()]);
                assert(installed[n - 1]@.len() == ts.versions@[n - 1].versions@.len());
            }
        }
    }
}

/// All requests of the lists, list by list, in order.
pub open spec fn all_requests(s: Seq<ToolVersionList>) -> Seq<ToolRequest>
    decreases s.len(),
{
    if s.len() == 0 {
        Seq::empty()
    } else {
        all_requests(s.drop_last()) + s.last().requests@
    }
}

/// Keeps the positions of versions of the tool with id `id`.
pub open spec fn of_tool(ts: Toolset, id: Seq<char>) -> spec_fn((usize, usize)) -> bool {
    |p: (usize, usize)| ts.versions@[p.0 as int].forge.id@ == id
}

/// The missing versions of the first of `providers[k..]` that has any.
pub open spec fn first_missing_batch(
    ts: Toolset,
    missing: Seq<(usize, usize)>,
    providers: Seq<Seq<char>>,
    k: int,
) -> Option<Seq<(usize, usize)>>
    decreases providers.len() - k,
{
    if k < 0 || k >= providers.len() {
        None
    } else if missing.filter(of_tool(ts, providers[k])).len() > 0 {
        Some(missing.filter(of_tool(ts, providers[k])))
    } else {
        first_missing_batch(ts, missing, providers, k + 1)
    }
}

/// The strings joined with `, ` between each two.
pub open spec fn join_commas(v: Seq<Seq<char>>) -> Seq<char>
    decreases v.len(),
{
    if v.len() == 0 {
        Seq::empty()
    } else if v.len() == 1 {
        v[0]
    } else {
        join_commas(v.drop_last()) + ", "@ + v.last()
    }
}

/// How a list is displayed: its requests separated by spaces.
pub open spec fn list_text(l: ToolVersionList) -> Seq<char> {
    join_words(l.requests@.map_values(|r: ToolRequest| request_text(r)))
}

/// How a toolset is displayed: its lists separated by commas.
pub open spec fn toolset_text(s: Seq<ToolVersionList>) -> Seq<char> {
    join_commas(s.map_values(|l: ToolVersionList| list_text(l)))
}

fn list_to_string(l: &ToolVersionList) -> (r: String)
    ensures
        r@ == list_text(*l),
{
    let mut out = String::new();
    let mut i: usize = 0;
    while i < l.requests.len()
        invariant
            i <= l.requests@.len(),
            out@ == join_words(l.requests@.subrange(0, i as int).map_values(|r: ToolRequest| request_text(r))),
        decreases l.requests@.len() - i,
    {
        let ghost pre = l.requests@.subrange(0, i as int).map_values(|r: ToolRequest| request_text(r));
        if i > 0 {
            out.append(" ");
        }
        let t = l.requests[i].to_string();
        out.append(t.as_str());
        i = i + 1;
        proof {
            let now = l.requests@.subrange(0, i as int).map_values(|r: ToolRequest| request_text(r));
            assert(now =~= pre.push(request_text(l.requests@[i - 1])));
            assert(now.drop_last() =~= pre);
        }
    }
    proof {
        assert(l.requests@.subrange(0, l.requests@.len() as int) =~= l.requests@);
    }
    out
}

/// Keeps the positions of versions that are installed.
pub open spec fn installed_at(installed: Seq<Vec<bool>>) -> spec_fn((usize, usize)) -> bool {
    |p: (usize, usize)| installed[p.0 as int]@[p.1 as int]
}

/// Keeps the positions of versions that are not installed.
pub open spec fn missing_at(installed: Seq<Vec<bool>>) -> spec_fn((usize, usize)) -> bool {
    |p: (usize, usize)| !installed[p.0 as int]@[p.1 as int]
}

/// Keeps the positions of versions that come from the command line and are
/// missing, or all of those when the install is forced.
pub open spec fn to_install_at(ts: Toolset, installed: Seq<Vec<bool>>, force: bool) -> spec_fn((usize, usize)) -> bool {
    |p: (usize, usize)| (force || !installed[p.0 as int]@[p.1 as int]) && ts.versions@[p.0 as int].source is Argument
}

/// How missing versions are reported.
#[derive(PartialEq, Eq, Structural, Clone, Copy, Debug)]
pub enum MissingToolsReport {
    Never,
    Always,
    IfOtherVersionsInstalled,
}

/// Whether a missing version is reported, given whether another version of
/// its tool is installed.
pub fn reports_missing(setting: MissingToolsReport, other_versions_installed: bool) -> (r: bool)
    ensures
        r == match setting {
            MissingToolsReport::Never => false,
            MissingToolsReport::Always => true,
            MissingToolsReport::IfOtherVersionsInstalled => other_versions_installed,
        },
{
    match setting {
        MissingToolsReport::Never => false,
        MissingToolsReport::Always => true,
        MissingToolsReport::IfOtherVersionsInstalled => other_versions_installed,
    }
}

/// Whether a current version counts as outdated: a symlinked version never
/// does; another does when it is missing or differs from the latest one.
pub fn is_outdated(symlinked: bool, installed: bool, version: &String, latest: &String) -> (r: bool)
    ensures
        r == (!symlinked && (!installed || version@ != latest@)),
{
    !symlinked && (!installed || *version != *latest)
}

/// A collection of tool requests, one list per tool in the order the tools
/// were first declared, with the filters that decide which tools it may hold.
#[derive(Debug)]
pub struct Toolset {
    pub versions: Vec<ToolVersionList>,
    pub source: Option<ToolSource>,
    pub disable_tools: Vec<String>,
    pub tool_filter: Option<Vec<String>>,
    pub installed_only: bool,
}

/// Whether `id` is one of the strings of `v`.
pub fn contains_str(v: &Vec<String>, id: &String) -> (r: bool)
    ensures
        r == strs(v@).contains(id@),
{
    let mut i: usize = 0;
    while i < v.len()
        invariant
            i <= v@.len(),
            forall|j: int| 0 <= j < i ==> v@[j]@ != id@,
        decreases v@.len() - i,
    {
        if v[i] == *id {
            assert(strs(v@)[i as int] == id@);
            return true;
        }
        i = i + 1;
    }
    proof {
        if strs(v@).contains(id@) {
            let k = choose|k: int| 0 <= k < strs(v@).len() && strs(v@)[k] == id@;
            assert(v@[k]@ == id@);
        }
    }
    false
}

/// The position of the list of the tool with id `id`, if there is one.
pub fn position_of(s: &Vec<ToolVersionList>, id: &String) -> (r: Option<usize>)
    ensures
        match r {
            Some(i) => i < s@.len() && s@[i as int].forge.id@ == id@,
            None => !has_id(s@, id@),
        },
{
    let mut i: usize = 0;
    while i < s.len()
        invariant
            i <= s@.len(),
            forall|j: int| 0 <= j < i ==> s@[j].forge.id@ != id@,
        decreases s@.len() - i,
    {
        if s[i].forge.id == *id {
            return Some(i);
        }
        i = i + 1;
    }
    None
}

/// The pairs whose version is installed (`want`) or missing (`!want`).
fn select_pairs(all: &Vec<(usize, usize)>, installed: &Vec<Vec<bool>>, want: bool) -> (r: Vec<(usize, usize)>)
    requires
        forall|k: int| 0 <= k < all@.len() ==> {
            &&& (#[trigger] all@[k]).0 < installed@.len()
            &&& all@[k].1 < installed@[all@[k].0 as int]@.len()
        },
    ensures
        want ==> r@ == all@.filter(installed_at(installed@)),
        !want ==> r@ == all@.filter(missing_at(installed@)),
{
    let mut out: Vec<(usize, usize)> = Vec::new();
    let mut k: usize = 0;
    while k < all.len()
        invariant
            k <= all@.len(),
            forall|k: int| 0 <= k < all@.len() ==> {
                &&& (#[trigger] all@[k]).0 < installed@.len()
                &&& all@[k].1 < installed@[all@[k].0 as int]@.len()
            },
            want ==> out@ == all@.subrange(0, k as int).filter(installed_at(installed@)),
            !want ==> out@ == all@.subrange(0, k as int).filter(missing_at(installed@)),
        decreases all@.len() - k,
    {
        let p = all[k];
        proof {
            assert(all@.subrange(0, k + 1) =~= all@.subrange(0, k as int).push(p));
            all@.subrange(0, k as int).lemma_filter_push(p, installed_at(installed@));
            all@.subrange(0, k as int).lemma_filter_push(p, missing_at(installed@));
        }
        if installed[p.0][p.1] == want {
            out.push(p);
        }
        k = k + 1;
    }
    proof {
        assert(all@.subrange(0, all@.len() as int) =~= all@);
    }
    out
}

impl Toolset {
    /// Whether the tool with id `id` is kept out of this toolset.
    pub open spec fn disabled(&self, id: Seq<char>) -> bool {
        ||| match self.tool_filter {
            Some(tf) => !strs(tf@).contains(id),
            None => false,
        }
        ||| strs(self.disable_tools@).contains(id)
    }

    /// Keeps the lists of tools that this toolset does not disable.
    pub open spec fn enabled(&self) -> spec_fn(ToolVersionList) -> bool {
        |t: ToolVersionList| !self.disabled(t.forge.id@)
    }

    pub open spec fn wf(&self) -> bool {
        distinct_ids(self.versions@)
    }

    /// The lists after this toolset is merged with one that holds `theirs`.
    pub open spec fn merged_versions(&self, theirs: Seq<ToolVersionList>) -> Seq<ToolVersionList> {
        (theirs + self.versions@.filter(absent_from(theirs))).filter(self.enabled())
    }

    /// `installed` says, for each resolved version of each list, whether it is
    /// installed on disk.
    pub open spec fn fits(&self, installed: Seq<Vec<bool>>) -> bool {
        &&& installed.len() == self.versions@.len()
        &&& installed.len() <= usize::MAX
        &&& forall|i: int| 0 <= i < installed.len() ==> #[trigger] installed[i]@.len() == self.versions@[i].versions@.len()
        &&& forall|i: int| 0 <= i < installed.len() ==> #[trigger] installed[i]@.len() <= usize::MAX
    }

    /// Whether the queries show list `i`: always, unless only installed tools
    /// are shown and one of its versions is missing.
    pub open spec fn shown(&self, installed: Seq<Vec<bool>>, i: int) -> bool {
        !self.installed_only || forall|j: int| 0 <= j < installed[i]@.len() ==> installed[i]@[j]
    }

    pub fn new(source: ToolSource) -> (r: Self)
        ensures
            r.wf(),
            r.source == Some(source),
            r.versions@.len() == 0,
            r.disable_tools@.len() == 0,
            r.tool_filter is None,
            !r.installed_only,
    {
        Toolset {
            versions: Vec::new(),
            source: Some(source),
            disable_tools: Vec::new(),
            tool_filter: None,
            installed_only: false,
        }
    }

    pub fn is_disabled(&self, fa: &ForgeArg) -> (r: bool)
        ensures
            r == self.disabled(fa.id@),
    {
        let filtered_out = match &self.tool_filter {
            Some(tf) => !contains_str(tf, &fa.id),
            None => false,
        };
        filtered_out || contains_str(&self.disable_tools, &fa.id)
    }

    /// Adds a request to the list of its tool, starting that list (from the
    /// active source) if the tool has none yet. A disabled tool is left out.
    pub fn add_version(&mut self, tvr: ToolRequest)
        requires
            old(self).wf(),
            old(self).source is Some || old(self).disabled(tvr.forge.id@) || has_id(
                old(self).versions@,
                tvr.forge.id@,
            ),
        ensures
            final(self).wf(),
            final(self).source == old(self).source,
            final(self).disable_tools == old(self).disable_tools,
            final(self).tool_filter == old(self).tool_filter,
            final(self).installed_only == old(self).installed_only,
            old(self).disabled(tvr.forge.id@) ==> *final(self) == *old(self),
            !old(self).disabled(tvr.forge.id@) && has_id(old(self).versions@, tvr.forge.id@)
                ==> request_added(old(self).versions@, final(self).versions@, tvr),
            !old(self).disabled(tvr.forge.id@) && !has_id(old(self).versions@, tvr.forge.id@)
                ==> list_started(
                old(self).versions@,
                final(self).versions@,
                tvr,
                old(self).source->Some_0,
            ),
    {
        if self.is_disabled(&tvr.forge) {
            return;
        }
        let ghost before = self.versions@;
        match position_of(&self.versions, &tvr.forge.id) {
            Some(i) => {
                let mut tvl = self.versions.remove(i);
                tvl.requests.push(tvr);
                self.versions.insert(i, tvl);
                proof {
                    assert(self.versions@ =~= before.update(i as int, tvl));
                    assert(has_id(before, tvr.forge.id@));
                    assert forall|j: int| 0 <= j < before.len() && before[j].forge.id@ == tvr.forge.id@ implies j == i by {
                        if j != i {
                            assert(before[j].forge.id@ != before[i as int].forge.id@);
                        }
                    }
                }
            },
            None => {
                let source = match &self.source {
                    Some(s) => s.duplicate(),
                    None => {
                        proof {
                            assert(false);
                        }
                        ToolSource::Argument
                    },
                };
                let mut tvl = ToolVersionList::new(tvr.forge.duplicate(), source);
                tvl.requests.push(tvr);
                self.versions.push(tvl);
                proof {
                    assert(tvl.requests@ =~= seq![tvr]);
                    assert(self.versions@.subrange(0, before.len() as int) =~= before);
                }
            },
        }
    }

    /// Merges `other` into this toolset: `other`'s lists come first, in its
    /// order, followed by the lists of tools that only this toolset held; then
    /// the tools this toolset disables are dropped. `other`'s source becomes
    /// the active one.
    pub fn merge(&mut self, other: Toolset)
        requires
            old(self).wf(),
            other.wf(),
        ensures
            final(self).wf(),
            final(self).versions@ == old(self).merged_versions(other.versions@),
            final(self).source == other.source,
            final(self).disable_tools == old(self).disable_tools,
            final(self).tool_filter == old(self).tool_filter,
            final(self).installed_only == old(self).installed_only,
    {
        let ghost mine0 = self.versions@;
        let ghost theirs0 = other.versions@;
        let ghost keep = old(self).enabled();
        let ghost fresh = absent_from(other.versions@);
        let mut mine = self.versions.split_off(0);
        let mut theirs = other.versions;
        let mut their_ids: Vec<String> = Vec::new();
        let mut i: usize = 0;
        while i < theirs.len()
            invariant
                theirs@ == theirs0,
                i <= theirs0.len(),
                their_ids@.len() == i,
                forall|j: int| 0 <= j < i ==> their_ids@[j]@ == theirs0[j].forge.id@,
            decreases theirs0.len() - i,
        {
            their_ids.push(theirs[i].forge.id.clone());
            i = i + 1;
        }
        assert(theirs0.subrange(0, theirs0.len() as int) =~= theirs0);
        let n = theirs.len();
        let mut result: Vec<ToolVersionList> = Vec::new();
        let mut k: usize = 0;
        while k < n
            invariant
                n == theirs0.len(),
                k <= n,
                theirs@ == theirs0.subrange(k as int, n as int),
                result@ == theirs0.subrange(0, k as int).filter(keep),
                keep == old(self).enabled(),
                self.disable_tools == old(self).disable_tools,
                self.tool_filter == old(self).tool_filter,
            decreases n - k,
        {
            let t = theirs.remove(0);
            proof {
                assert(theirs0.subrange(0, k + 1) =~= theirs0.subrange(0, k as int).push(t));
                theirs0.subrange(0, k as int).lemma_filter_push(t, keep);
            }
            if !self.is_disabled(&t.forge) {
                result.push(t);
            }
            k = k + 1;
            proof {
                assert(theirs@ =~= theirs0.subrange(k as int, n as int));
            }
        }
        assert(theirs0.subrange(0, n as int) =~= theirs0);
        let m = mine.len();
        let ghost head = result@;
        k = 0;
        while k < m
            invariant
                m == mine0.len(),
                k <= m,
                mine@ == mine0.subrange(k as int, m as int),
                head == theirs0.filter(keep),
                result@ == head + mine0.subrange(0, k as int).filter(fresh).filter(keep),
                keep == old(self).enabled(),
                fresh == absent_from(theirs0),
                their_ids@.len() == theirs0.len(),
                forall|j: int| 0 <= j < theirs0.len() ==> their_ids@[j]@ == theirs0[j].forge.id@,
                self.disable_tools == old(self).disable_tools,
                self.tool_filter == old(self).tool_filter,
            decreases m - k,
        {
            let t = mine.remove(0);
            let known = contains_str(&their_ids, &t.forge.id);
            proof {
                let pre = mine0.subrange(0, k as int);
                assert(mine0.subrange(0, k + 1) =~= pre.push(t));
                pre.lemma_filter_push(t, fresh);
                pre.filter(fresh).lemma_filter_push(t, keep);
                if known {
                    let j = choose|j: int| 0 <= j < strs(their_ids@).len() && strs(their_ids@)[j] == t.forge.id@;
                    assert(their_ids@[j]@ == t.forge.id@);
                    assert(theirs0[j].forge.id@ == t.forge.id@);
                } else {
                    assert forall|j: int| 0 <= j < theirs0.len() implies theirs0[j].forge.id@ != t.forge.id@ by {
                        assert(strs(their_ids@)[j] == theirs0[j].forge.id@);
                    }
                }
            }
            if !known && !self.is_disabled(&t.forge) {
                result.push(t);
            }
            k = k + 1;
            proof {
                assert(mine@ =~= mine0.subrange(k as int, m as int));
            }
        }
        proof {
            assert(mine0.subrange(0, m as int) =~= mine0);
            Seq::filter_distributes_over_add(theirs0, mine0.filter(fresh), keep);
            lemma_merged_distinct(old(self).enabled(), theirs0, mine0);
        }
        self.versions = result;
        self.source = other.source;
    }

    /// A toolset of the tools of a request set, in its order, each list from
    /// the set's first source.
    pub fn from_request_set(source: ToolSource, tools: Vec<(ForgeArg, Vec<ToolRequest>)>) -> (r: Self)
        requires
            forall|i: int, j: int|
                0 <= i < tools@.len() && 0 <= j < tools@.len() && i != j ==> tools@[i].0.id@ != tools@[j].0.id@,
        ensures
            r.wf(),
            r.source == Some(source),
            r.versions@.len() == tools@.len(),
            forall|i: int| 0 <= i < tools@.len() ==> {
                &&& (#[trigger] r.versions@[i]).forge == tools@[i].0
                &&& r.versions@[i].requests == tools@[i].1
                &&& r.versions@[i].source == source
                &&& r.versions@[i].versions@.len() == 0
            },
            r.disable_tools@.len() == 0,
            r.tool_filter is None,
            !r.installed_only,
    {
        let ghost t0 = tools@;
        let mut rest = tools;
        let mut lists: Vec<ToolVersionList> = Vec::new();
        let n = rest.len();
        let mut k: usize = 0;
        while k < n
            invariant
                n == t0.len(),
                k <= n,
                rest@ == t0.subrange(k as int, n as int),
                lists@.len() == k,
                forall|i: int| 0 <= i < k ==> {
                    &&& (#[trigger] lists@[i]).forge == t0[i].0
                    &&& lists@[i].requests == t0[i].1
                    &&& lists@[i].source == source
                    &&& lists@[i].versions@.len() == 0
                },
            decreases n - k,
        {
            let (fa, reqs) = rest.remove(0);
            let tvl = ToolVersionList { forge: fa, requests: reqs, versions: Vec::new(), source: source.duplicate() };
            lists.push(tvl);
            k = k + 1;
            proof {
                assert(rest@ =~= t0.subrange(k as int, n as int));
            }
        }
        Toolset {
            versions: lists,
            source: Some(source),
            disable_tools: Vec::new(),
            tool_filter: None,
            installed_only: false,
        }
    }

    /// Every request of the toolset, list by list, in order.
    pub fn list_current_requests(&self) -> (r: Vec<&ToolRequest>)
        ensures
            r@.map_values(|x: &ToolRequest| *x) == all_requests(self.versions@),
    {
        let mut out: Vec<&ToolRequest> = Vec::new();
        let mut i: usize = 0;
        while i < self.versions.len()
            invariant
                i <= self.versions@.len(),
                out@.map_values(|x: &ToolRequest| *x) == all_requests(self.versions@.subrange(0, i as int)),
            decreases self.versions@.len() - i,
        {
            let ghost base = out@.map_values(|x: &ToolRequest| *x);
            let reqs = &self.versions[i].requests;
            let mut j: usize = 0;
            while j < reqs.len()
                invariant
                    j <= reqs@.len(),
                    out@.map_values(|x: &ToolRequest| *x) == base + reqs@.subrange(0, j as int),
                decreases reqs@.len() - j,
            {
                let ghost prev = out@;
                out.push(&reqs[j]);
                proof {
                    assert(out@.map_values(|x: &ToolRequest| *x) =~= prev.map_values(|x: &ToolRequest| *x).push(
                        reqs@[j as int],
                    ));
                    assert(reqs@.subrange(0, j + 1) =~= reqs@.subrange(0, j as int).push(reqs@[j as int]));
                    assert(out@.map_values(|x: &ToolRequest| *x) =~= base + reqs@.subrange(0, j + 1));
                }
                j = j + 1;
            }
            proof {
                assert(self.versions@.subrange(0, i + 1).drop_last() =~= self.versions@.subrange(0, i as int));
                assert(reqs@.subrange(0, reqs@.len() as int) =~= reqs@);
            }
            i = i + 1;
        }
        proof {
            assert(self.versions@.subrange(0, self.versions@.len() as int) =~= self.versions@);
        }
        out
    }

    /// The versions to install for a binary: `providers` holds, in order, the
    /// ids of the tools that have a version providing it; the missing current
    /// versions of the first of them that has any are taken.
    pub fn install_missing_bin(&self, installed: &Vec<Vec<bool>>, providers: &Vec<String>) -> (r: Option<Vec<(usize, usize)>>)
        requires
            self.fits(installed@),
        ensures
            ({
                let missing = current_pairs(*self, installed@, self.versions@.len() as int).filter(missing_at(installed@));
                match r {
                    Some(v) => first_missing_batch(*self, missing, strs(providers@), 0) == Some(v@),
                    None => first_missing_batch(*self, missing, strs(providers@), 0) is None,
                }
            }),
    {
        let missing = self.list_missing_versions(installed);
        proof {
            let all = current_pairs(*self, installed@, self.versions@.len() as int);
            lemma_current_pairs_in_bounds(*self, installed@, self.versions@.len() as int);
            lemma_filter_from(all, missing_at(installed@));
            assert forall|q: int| 0 <= q < missing@.len() implies (#[trigger] missing@[q]).0 < self.versions@.len() by {
                assert(all.contains(missing@[q]));
            }
        }
        let mut k: usize = 0;
        while k < providers.len()
            invariant
                k <= providers@.len(),
                missing@ == current_pairs(*self, installed@, self.versions@.len() as int).filter(missing_at(installed@)),
                forall|q: int| 0 <= q < missing@.len() ==> (#[trigger] missing@[q]).0 < self.versions@.len(),
                first_missing_batch(*self, missing@, strs(providers@), 0) == first_missing_batch(
                    *self,
                    missing@,
                    strs(providers@),
                    k as int,
                ),
            decreases providers@.len() - k,
        {
            let id = &providers[k];
            let mut batch: Vec<(usize, usize)> = Vec::new();
            let mut q: usize = 0;
            while q < missing.len()
                invariant
                    q <= missing@.len(),
                    k < providers@.len(),
                    *id == providers@[k as int],
                    forall|q: int| 0 <= q < missing@.len() ==> (#[trigger] missing@[q]).0 < self.versions@.len(),
                    first_missing_batch(*self, missing@, strs(providers@), 0) == first_missing_batch(
                        *self,
                        missing@,
                        strs(providers@),
                        k as int,
                    ),
                    batch@ == missing@.subrange(0, q as int).filter(of_tool(*self, id@)),
                decreases missing@.len() - q,
            {
                let p = missing[q];
                proof {
                    assert(missing@.subrange(0, q + 1) =~= missing@.subrange(0, q as int).push(p));
                    missing@.subrange(0, q as int).lemma_filter_push(p, of_tool(*self, id@));
                }
                if self.versions[p.0].forge.id == *id {
                    batch.push(p);
                }
                q = q + 1;
            }
            proof {
                assert(missing@.subrange(0, missing@.len() as int) =~= missing@);
                assert(strs(providers@)[k as int] == id@);
            }
            if batch.len() > 0 {
                return Some(batch);
            }
            k = k + 1;
        }
        None
    }

    /// How the toolset is displayed: each list's requests separated by
    /// spaces, the lists separated by commas.
    pub fn to_string(&self) -> (r: String)
        ensures
            r@ == toolset_text(self.versions@),
    {
        let mut out = String::new();
        let mut i: usize = 0;
        while i < self.versions.len()
            invariant
                i <= self.versions@.len(),
                out@ == join_commas(self.versions@.subrange(0, i as int).map_values(|l: ToolVersionList| list_text(l))),
            decreases self.versions@.len() - i,
        {
            let ghost pre = self.versions@.subrange(0, i as int).map_values(|l: ToolVersionList| list_text(l));
            if i > 0 {
                out.append(", ");
            }
            let t = list_to_string(&self.versions[i]);
            out.append(t.as_str());
            i = i + 1;
            proof {
                let now = self.versions@.subrange(0, i as int).map_values(|l: ToolVersionList| list_text(l));
                assert(now =~= pre.push(list_text(self.versions@[i - 1])));
                assert(now.drop_last() =~= pre);
            }
        }
        proof {
            assert(self.versions@.subrange(0, self.versions@.len() as int) =~= self.versions@);
        }
        out
    }

    /// The positions of the lists that the queries show, in order.
    pub fn list_versions_by_plugin(&self, installed: &Vec<Vec<bool>>) -> (r: Vec<usize>)
        requires
            self.fits(installed@),
        ensures
            ascending_below(r@, self.versions@.len()),
            forall|i: int| 0 <= i < self.versions@.len() ==> (r@.contains(i as usize) <==> self.shown(installed@, i)),
    {
        let mut out: Vec<usize> = Vec::new();
        let mut i: usize = 0;
        while i < self.versions.len()
            invariant
                self.fits(installed@),
                i <= self.versions@.len(),
                ascending_below(out@, i as nat),
                forall|m: int| 0 <= m < i ==> (out@.contains(m as usize) <==> self.shown(installed@, m)),
            decreases self.versions@.len() - i,
        {
            let ghost before = out@;
            if self.all_installed(installed, i) {
                out.push(i);
            }
            proof {
                assert forall|m: int| 0 <= m < i + 1 implies (out@.contains(m as usize) <==> self.shown(installed@, m)) by {
                    if m < i {
                        if before.contains(m as usize) {
                            let k = choose|k: int| 0 <= k < before.len() && before[k] == m as usize;
                            assert(out@[k] == before[k]);
                        }
                        if out@.contains(m as usize) {
                            let k = choose|k: int| 0 <= k < out@.len() && out@[k] == m as usize;
                            if k < before.len() {
                                assert(before[k] == out@[k]);
                            }
                        }
                    } else {
                        if out@.contains(m as usize) {
                            let k = choose|k: int| 0 <= k < out@.len() && out@[k] == m as usize;
                            if k < before.len() {
                                assert(before[k] == out@[k]);
                            }
                        }
                        if out@.len() > before.len() {
                            assert(out@[before.len() as int] == i);
                        }
                    }
                }
            }
            i = i + 1;
        }
        out
    }

    /// Whether list `i` is shown.
    fn all_installed(&self, installed: &Vec<Vec<bool>>, i: usize) -> (r: bool)
        requires
            self.fits(installed@),
            i < self.versions@.len(),
        ensures
            r == self.shown(installed@, i as int),
    {
        if !self.installed_only {
            return true;
        }
        let row = &installed[i];
        let mut j: usize = 0;
        while j < row.len()
            invariant
                self.fits(installed@),
                self.installed_only,
                i < self.versions@.len(),
                row@ == installed@[i as int]@,
                j <= row@.len(),
                forall|k: int| 0 <= k < j ==> row@[k],
            decreases row@.len() - j,
        {
            if !row[j] {
                assert(!installed@[i as int]@[j as int]);
                return false;
            }
            j = j + 1;
        }
        true
    }

    /// The positions `(list, version)` of the resolved versions of the shown
    /// lists, in order.
    pub fn list_current_versions(&self, installed: &Vec<Vec<bool>>) -> (r: Vec<(usize, usize)>)
        requires
            self.fits(installed@),
        ensures
            r@ == current_pairs(*self, installed@, self.versions@.len() as int),
    {
        let mut out: Vec<(usize, usize)> = Vec::new();
        let mut i: usize = 0;
        while i < self.versions.len()
            invariant
                self.fits(installed@),
                i <= self.versions@.len(),
                out@ == current_pairs(*self, installed@, i as int),
            decreases self.versions@.len() - i,
        {
            if self.all_installed(installed, i) {
                let ghost base = out@;
                let n = self.versions[i].versions.len();
                let mut j: usize = 0;
                while j < n
                    invariant
                        n == self.versions@[i as int].versions@.len(),
                        j <= n,
                        out@ == base + Seq::new(j as nat, |k: int| (i, k as usize)),
                    decreases n - j,
                {
                    out.push((i, j));
                    j = j + 1;
                    proof {
                        assert(out@ =~= base + Seq::new(j as nat, |k: int| (i, k as usize)));
                    }
                }
                proof {
                    assert(current_pairs(*self, installed@, i + 1) =~= base + Seq::new(
                        n as nat,
                        |k: int| (i, k as usize),
                    ));
                }
            } else {
                proof {
                    assert(current_pairs(*self, installed@, i + 1) =~= out@);
                }
            }
            i = i + 1;
        }
        out
    }

    /// The positions of the current versions that are installed.
    pub fn list_current_installed_versions(&self, installed: &Vec<Vec<bool>>) -> (r: Vec<(usize, usize)>)
        requires
            self.fits(installed@),
        ensures
            r@ == current_pairs(*self, installed@, self.versions@.len() as int).filter(installed_at(installed@)),
    {
        let all = self.list_current_versions(installed);
        proof {
            lemma_current_pairs_in_bounds(*self, installed@, self.versions@.len() as int);
        }
        select_pairs(&all, installed, true)
    }

    /// The positions of the current versions that are not installed.
    pub fn list_missing_versions(&self, installed: &Vec<Vec<bool>>) -> (r: Vec<(usize, usize)>)
        requires
            self.fits(installed@),
        ensures
            r@ == current_pairs(*self, installed@, self.versions@.len() as int).filter(missing_at(installed@)),
    {
        let all = self.list_current_versions(installed);
        proof {
            lemma_current_pairs_in_bounds(*self, installed@, self.versions@.len() as int);
        }
        select_pairs(&all, installed, false)
    }

    /// The positions of the current versions that an install of the
    /// command-line tools takes: those whose list comes from the command line
    /// and that are missing, or all of those when `force` is set.
    pub fn install_arg_versions(&self, installed: &Vec<Vec<bool>>, force: bool) -> (r: Vec<(usize, usize)>)
        requires
            self.fits(installed@),
        ensures
            r@ == current_pairs(*self, installed@, self.versions@.len() as int).filter(
                to_install_at(*self, installed@, force),
            ),
    {
        let all = self.list_current_versions(installed);
        proof {
            lemma_current_pairs_in_bounds(*self, installed@, self.versions@.len() as int);
        }
        let mut out: Vec<(usize, usize)> = Vec::new();
        let mut k: usize = 0;
        while k < all.len()
            invariant
                self.fits(installed@),
                all@ == current_pairs(*self, installed@, self.versions@.len() as int),
                forall|k: int| 0 <= k < all@.len() ==> {
                    &&& (#[trigger] all@[k]).0 < installed@.len()
                    &&& all@[k].1 < installed@[all@[k].0 as int]@.len()
                },
                k <= all@.len(),
                out@ == all@.subrange(0, k as int).filter(to_install_at(*self, installed@, force)),
            decreases all@.len() - k,
        {
            let p = all[k];
            proof {
                assert(all@.subrange(0, k + 1) =~= all@.subrange(0, k as int).push(p));
                all@.subrange(0, k as int).lemma_filter_push(p, to_install_at(*self, installed@, force));
            }
            if (force || !installed[p.0][p.1]) && self.versions[p.0].source.is_argument() {
                out.push(p);
            }
            k = k + 1;
        }
        proof {
            assert(all@.subrange(0, all@.len() as int) =~= all@);
        }
        out
    }

    /// The first current installed version that provides a binary, in the
    /// toolset's order; `provides` says, for each version, whether it does.
    pub fn which(&self, installed: &Vec<Vec<bool>>, provides: &Vec<Vec<bool>>) -> (r: Option<(usize, usize)>)
        requires
            self.fits(installed@),
            self.fits(provides@),
        ensures
            ({
                let found = current_pairs(*self, installed@, self.versions@.len() as int).filter(
                    installed_at(installed@),
                ).filter(installed_at(provides@));
                r == if found.len() > 0 {
                    Some(found[0])
                } else {
                    None::<(usize, usize)>
                }
            }),
    {
        let current = self.list_current_installed_versions(installed);
        proof {
            let all = current_pairs(*self, installed@, self.versions@.len() as int);
            lemma_current_pairs_in_bounds(*self, installed@, self.versions@.len() as int);
            lemma_filter_from(all, installed_at(installed@));
            assert forall|k: int| 0 <= k < current@.len() implies {
                &&& (#[trigger] current@[k]).0 < provides@.len()
                &&& current@[k].1 < provides@[current@[k].0 as int]@.len()
            } by {
                assert(all.contains(current@[k]));
            }
        }
        let found = select_pairs(&current, provides, true);
        if found.len() > 0 {
            Some(found[0])
        } else {
            None
        }
    }
}

/// Every element that a filter keeps comes from the filtered sequence.
pub proof fn lemma_filter_from<A>(s: Seq<A>, p: spec_fn(A) -> bool)
    ensures
        forall|i: int| 0 <= i < s.filter(p).len() ==> s.contains(#[trigger] s.filter(p)[i]),
    decreases s.len(),
{
    reveal(Seq::filter);
    if s.len() > 0 {
        let rest = s.drop_last();
        let x = s.last();
        lemma_filter_from(rest, p);
        assert(rest.push(x) =~= s);
        rest.lemma_filter_push(x, p);
        assert forall|i: int| 0 <= i < s.filter(p).len() implies s.contains(s.filter(p)[i]) by {
            if i < rest.filter(p).len() {
                assert(rest.contains(rest.filter(p)[i]));
                let j = choose|j: int| 0 <= j < rest.len() && rest[j] == rest.filter(p)[i];
                assert(s[j] == rest[j]);
            } else {
                assert(s[s.len() - 1] == x);
            }
        }
    }
}

/// Keeping some of the lists of a sequence keeps their tools distinct.
pub proof fn lemma_filter_distinct(s: Seq<ToolVersionList>, p: spec_fn(ToolVersionList) -> bool)
    requires
        distinct_ids(s),
    ensures
        distinct_ids(s.filter(p)),
    decreases s.len(),
{
    if s.len() > 0 {
        let rest = s.drop_last();
        let x = s.last();
        assert(rest.push(x) =~= s);
        assert(distinct_ids(rest));
        lemma_filter_distinct(rest, p);
        rest.lemma_filter_push(x, p);
        lemma_filter_from(rest, p);
        if p(x) {
            let f = rest.filter(p);
            assert forall|i: int| 0 <= i < f.len() implies f[i].forge.id@ != x.forge.id@ by {
                assert(rest.contains(f[i]));
                let j = choose|j: int| 0 <= j < rest.len() && rest[j] == f[i];
                assert(s[j] == rest[j]);
                assert(s[s.len() - 1] == x);
            }
        }
    }
}

/// The lists of a merge belong to distinct tools.
pub proof fn lemma_merged_distinct(
    keep: spec_fn(ToolVersionList) -> bool,
    theirs: Seq<ToolVersionList>,
    mine: Seq<ToolVersionList>,
)
    requires
        distinct_ids(theirs),
        distinct_ids(mine),
    ensures
        distinct_ids((theirs + mine.filter(absent_from(theirs))).filter(keep)),
{
    let fresh = absent_from(theirs);
    let a = theirs.filter(keep);
    let b = mine.filter(fresh).filter(keep);
    Seq::filter_distributes_over_add(theirs, mine.filter(fresh), keep);
    lemma_filter_distinct(theirs, keep);
    lemma_filter_distinct(mine, fresh);
    lemma_filter_distinct(mine.filter(fresh), keep);
    lemma_filter_from(theirs, keep);
    lemma_filter_from(mine.filter(fresh), keep);
    #[allow(deprecated)]
    mine.filter_lemma(fresh);
    let c = a + b;
    assert forall|i: int, j: int|
        0 <= i < c.len() && 0 <= j < c.len() && i != j implies c[i].forge.id@ != c[j].forge.id@ by {
        if i < a.len() && j >= a.len() {
            assert(theirs.contains(a[i]));
            assert(mine.filter(fresh).contains(b[j - a.len()]));
            let u = choose|u: int| 0 <= u < theirs.len() && theirs[u] == a[i];
            let v = choose|v: int| 0 <= v < mine.filter(fresh).len() && mine.filter(fresh)[v] == b[j - a.len()];
            assert(fresh(mine.filter(fresh)[v]));
        } else if j < a.len() && i >= a.len() {
            assert(theirs.contains(a[j]));
            assert(mine.filter(fresh).contains(b[i - a.len()]));
            let u = choose|u: int| 0 <= u < theirs.len() && theirs[u] == a[j];
            let v = choose|v: int| 0 <= v < mine.filter(fresh).len() && mine.filter(fresh)[v] == b[i - a.len()];
            assert(fresh(mine.filter(fresh)[v]));
        }
    }
}

/// Merging keeps every tool of either toolset that the receiver does not
/// disable: the other toolset's lists come first, in its order, and the tools
/// that only the receiver held follow in the receiver's order. Nothing else
/// is added.
pub proof fn lemma_merge_keeps_tools(ts: Toolset, other: Toolset)
    ensures
        ts.merged_versions(other.versions@) == other.versions@.filter(ts.enabled())
            + ts.versions@.filter(absent_from(other.versions@)).filter(ts.enabled()),
        forall|i: int|
            0 <= i < other.versions@.len() && !ts.disabled(other.versions@[i].forge.id@)
                ==> has_id(ts.merged_versions(other.versions@), other.versions@[i].forge.id@),
        forall|i: int|
            0 <= i < ts.versions@.len() && !ts.disabled(ts.versions@[i].forge.id@)
                ==> has_id(ts.merged_versions(other.versions@), ts.versions@[i].forge.id@),
        forall|k: int|
            0 <= k < ts.merged_versions(other.versions@).len() ==> {
                let t = #[trigger] ts.merged_versions(other.versions@)[k];
                &&& !ts.disabled(t.forge.id@)
                &&& other.versions@.contains(t) || ts.versions@.contains(t)
            },
{
    let theirs = other.versions@;
    let mine = ts.versions@;
    let keep = ts.enabled();
    let fresh = absent_from(theirs);
    let merged = ts.merged_versions(theirs);
    Seq::filter_distributes_over_add(theirs, mine.filter(fresh), keep);
    let a = theirs.filter(keep);
    let b = mine.filter(fresh).filter(keep);
    #[allow(deprecated)]
    {
        theirs.filter_lemma(keep);
        mine.filter_lemma(fresh);
        mine.filter(fresh).filter_lemma(keep);
    }
    lemma_filter_from(theirs, keep);
    lemma_filter_from(mine.filter(fresh), keep);
    lemma_filter_from(mine, fresh);
    assert forall|i: int| 0 <= i < theirs.len() && !ts.disabled(theirs[i].forge.id@) implies has_id(
        merged,
        theirs[i].forge.id@,
    ) by {
        assert(keep(theirs[i]));
        assert(a.contains(theirs[i]));
        let k = choose|k: int| 0 <= k < a.len() && a[k] == theirs[i];
        assert(merged[k] == a[k]);
    }
    assert forall|i: int| 0 <= i < mine.len() && !ts.disabled(mine[i].forge.id@) implies has_id(
        merged,
        mine[i].forge.id@,
    ) by {
        if has_id(theirs, mine[i].forge.id@) {
            let j = choose|j: int| 0 <= j < theirs.len() && theirs[j].forge.id@ == mine[i].forge.id@;
            assert(keep(theirs[j]));
            assert(a.contains(theirs[j]));
            let k = choose|k: int| 0 <= k < a.len() && a[k] == theirs[j];
            assert(merged[k] == a[k]);
        } else {
            assert(fresh(mine[i]));
            assert(mine.filter(fresh).contains(mine[i]));
            let v = choose|v: int| 0 <= v < mine.filter(fresh).len() && mine.filter(fresh)[v] == mine[i];
            assert(keep(mine.filter(fresh)[v]));
            assert(b.contains(mine[i]));
            let k = choose|k: int| 0 <= k < b.len() && b[k] == mine[i];
            assert(merged[a.len() + k] == b[k]);
        }
    }
    assert forall|k: int| 0 <= k < merged.len() implies {
        let t = #[trigger] merged[k];
        &&& !ts.disabled(t.forge.id@)
        &&& theirs.contains(t) || mine.contains(t)
    } by {
        if k < a.len() {
            assert(merged[k] == a[k]);
            assert(keep(a[k]));
            assert(theirs.contains(a[k]));
        } else {
            let t = b[k - a.len()];
            assert(merged[k] == t);
            assert(keep(t));
            assert(mine.filter(fresh).contains(t));
            let v = choose|v: int| 0 <= v < mine.filter(fresh).len() && mine.filter(fresh)[v] == t;
            assert(mine.contains(mine.filter(fresh)[v]));
        }
    }
}

} // verus!
