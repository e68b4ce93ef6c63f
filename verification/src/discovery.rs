//! Working out where unregistered repositories might be: the parents of registered
//! repositories, the workspace the command runs in, and the conventional directory names
//! under the home directory; which of those are specific enough to walk; and which are
//! walked at all once roots inside other roots are dropped.
//!
//! Whether a directory exists, where the home directory is and what a walk finds are the
//! caller's to read; paths are compared by their components.
use vstd::prelude::*;

use crate::config;
use crate::order::{self, Component};
use crate::text;

verus! {

broadcast use vstd::seq_lib::group_seq_properties;

/// Fewest path components a directory must have before it is walked: a repository
/// cloned straight into the home directory must not turn the pass into a walk of it.
pub const MIN_DISCOVERY_ROOT_DEPTH: usize = 2;

/// The directory names under the home directory that are probed by name on a machine
/// with nothing registered yet.
pub open spec fn code_root_names() -> Seq<Seq<char>> {
    seq![
        "Code"@, "code"@, "Projects"@, "projects"@, "Developer"@, "Development"@, "dev"@, "src"@,
        "repos"@, "git"@, "work"@, "workspace"@, "Documents/GitHub"@, "source/repos"@, "go/src"@,
    ]
}

/// Whether a directory is specific enough to be walked: it exists, it is not the home
/// directory, and it has more than [`MIN_DISCOVERY_ROOT_DEPTH`] components.
pub open spec fn scannable(path: Seq<char>, is_dir: bool, home: Option<Seq<char>>) -> bool {
    &&& is_dir
    &&& match home {
        Some(h) => order::components_of(h) != order::components_of(path),
        None => true,
    }
    &&& order::components_of(path).len() > MIN_DISCOVERY_ROOT_DEPTH
}

fn same_components(a: &Vec<order::Comp>, b: &Vec<order::Comp>) -> (r: bool)
    ensures
        r == (order::comps_view(a@) == order::comps_view(b@)),
{
    proof {
        order::lemma_components_order(order::comps_view(a@), order::comps_view(b@));
    }
    order::components_order_exec(a, b) == 0
}

/// Whether a directory is specific enough to be walked. `is_dir` is whether it is an
/// existing directory and `home` the home directory, if there is one.
pub fn is_scannable_root(path: &str, is_dir: bool, home: Option<&str>) -> (r: bool)
    ensures
        r == scannable(
            path@,
            is_dir,
            match home {
                Some(h) => Some(h@),
                None => None,
            },
        ),
{
    if !is_dir {
        return false;
    }
    let pc = order::components(path);
    if let Some(h) = home {
        let hc = order::components(h);
        if same_components(&hc, &pc) {
            return false;
        }
    }
    pc.len() > MIN_DISCOVERY_ROOT_DEPTH
}

/// A path's parent, as its components: `None` for the root or an empty path.
pub open spec fn parent_components(path: Seq<char>) -> Option<Seq<Component>> {
    let c = order::components_of(path);
    if c.len() == 0 || c == seq![Component::Root] {
        None
    } else {
        Some(c.drop_last())
    }
}

/// A path's parent, written out: `None` for the root or an empty path.
pub fn parent_path(path: &str) -> (r: Option<String>)
    ensures
        match r {
            Some(p) => parent_components(path@) matches Some(c) && p@ == order::rendered(c),
            None => parent_components(path@) is None,
        },
{
    let mut c = order::components(path);
    let only_root = c.len() == 1 && match &c[0] {
        order::Comp::Root => true,
        _ => false,
    };
    proof {
        let cv = order::comps_view(c@);
        if cv.len() == 1 && cv[0] == Component::Root {
            assert(cv =~= seq![Component::Root]);
        }
        if cv == seq![Component::Root] {
            assert(cv[0] == Component::Root);
        }
    }
    if c.len() == 0 || only_root {
        return None;
    }
    let ghost before = order::comps_view(c@);
    c.pop();
    assert(order::comps_view(c@) =~= before.drop_last());
    Some(order::render(&c))
}

/// The parents of the registered repositories, in the registry's order: where more of
/// them probably live. Which are walked is decided by [`is_scannable_root`].
pub open spec fn neighbourhood_of(keys: Seq<Seq<char>>) -> Seq<Seq<char>>
    decreases keys.len(),
{
    if keys.len() == 0 {
        seq![]
    } else {
        let rest = neighbourhood_of(keys.drop_last());
        match parent_components(keys.last()) {
            Some(c) => rest.push(order::rendered(c)),
            None => rest,
        }
    }
}

/// The parents of the registered repositories.
pub fn neighbourhood_roots(registry: &config::Registry) -> (r: Vec<String>)
    ensures
        text::views(r@) == neighbourhood_of(config::keys_of(registry@.repositories)),
{
    let ghost ks = config::keys_of(registry@.repositories);
    let mut out: Vec<String> = Vec::new();
    let mut i: usize = 0;
    while i < registry.repositories.len()
        invariant
            i <= registry.repositories@.len(),
            ks == config::keys_of(registry@.repositories),
            ks.len() == registry.repositories@.len(),
            text::views(out@) == neighbourhood_of(ks.take(i as int)),
        decreases registry.repositories@.len() - i,
    {
        assert(ks.take(i + 1).drop_last() == ks.take(i as int));
        assert(ks.take(i + 1).last() == registry.repositories@[i as int].0@);
        let ghost before = text::views(out@);
        match parent_path(registry.repositories[i].0.as_str()) {
            Some(p) => {
                out.push(p);
                assert(text::views(out@) =~= before.push(out@.last()@));
            },
            None => {},
        }
        i = i + 1;
    }
    assert(ks.take(i as int) == ks);
    out
}

/// The conventional roots under the home directory, in the order they are probed;
/// those that exist are walked.
pub open spec fn conventional_of(home: Seq<char>) -> Seq<Seq<char>> {
    code_root_names().map_values(|n: Seq<char>| config::joined(home, n, false))
}

/// The conventional roots under the home directory.
pub fn conventional_roots(home: &str) -> (r: Vec<String>)
    ensures
        text::views(r@) == conventional_of(home@),
{
    let names: [&'static str; 15] = [
        "Code", "code", "Projects", "projects", "Developer", "Development", "dev", "src",
        "repos", "git", "work", "workspace", "Documents/GitHub", "source/repos", "go/src",
    ];
    let ghost ns = code_root_names();
    assert(names@.map_values(|s: &'static str| s@) =~= ns);
    let mut out: Vec<String> = Vec::new();
    let mut i: usize = 0;
    while i < 15
        invariant
            i <= 15,
            names@.map_values(|s: &'static str| s@) == ns,
            ns == code_root_names(),
            ns.len() == 15,
            text::views(out@) == conventional_of(home@).take(i as int),
        decreases 15 - i,
    {
        let ghost before = text::views(out@);
        let joined = config::join_path(home, names[i], false);
        assert(names@[i as int]@ == ns[i as int]);
        assert(joined@ == conventional_of(home@)[i as int]);
        out.push(joined);
        assert(text::views(out@) =~= before.push(conventional_of(home@)[i as int]));
        assert(text::views(out@) =~= conventional_of(home@).take(i + 1));
        i = i + 1;
    }
    out
}

/// The workspace the command runs in: the working directory, or, when that is itself
/// a repository, its parent (where the siblings are). Walked if scannable.
pub fn workspace_root(cwd: &str, cwd_is_repo: bool) -> (r: Option<String>)
    ensures
        match r {
            Some(p) => if cwd_is_repo {
                parent_components(cwd@) matches Some(c) && p@ == order::rendered(c)
            } else {
                p@ == cwd@
            },
            None => cwd_is_repo && parent_components(cwd@) is None,
        },
{
    if cwd_is_repo {
        parent_path(cwd)
    } else {
        Some(text::owned(cwd))
    }
}

// ---------------------------------------------------------------------------------
// Roots inside other roots
// ---------------------------------------------------------------------------------

/// Whether `root` lies inside `base` (or is it), as `Path::starts_with` says.
pub open spec fn inside(root: Seq<char>, base: Seq<char>) -> bool {
    order::components_of(base).is_prefix_of(order::components_of(root))
}

/// Whether `root` lies inside any of `kept`.
pub open spec fn inside_any(root: Seq<char>, kept: Seq<Seq<char>>) -> bool {
    exists|k: int| 0 <= k < kept.len() && inside(root, #[trigger] kept[k])
}

/// The roots kept from an ordered list: each one unless it lies inside a root kept
/// before it.
pub open spec fn kept_roots(roots: Seq<Seq<char>>) -> Seq<Seq<char>>
    decreases roots.len(),
{
    if roots.len() == 0 {
        seq![]
    } else {
        let kept = kept_roots(roots.drop_last());
        if inside_any(roots.last(), kept) {
            kept
        } else {
            kept.push(roots.last())
        }
    }
}

/// Whether `out` is `roots` reordered by `idx` into path order, equal paths keeping
/// their order.
pub open spec fn sorted_from(out: Seq<Seq<char>>, roots: Seq<Seq<char>>, idx: Seq<usize>) -> bool {
    &&& order::is_permutation(idx, roots.len())
    &&& out.len() == roots.len()
    &&& forall|k: int| 0 <= k < out.len() ==> #[trigger] out[k] == roots[idx[k] as int]
    &&& forall|a: int, b: int| 0 <= a < b < out.len() ==> order::path_order(out[a], out[b]) <= 0
    &&& forall|a: int, b: int| 0 <= a < b < out.len() && order::path_order(out[a], out[b]) == 0 ==> idx[a] < idx[b]
}

fn is_inside(root: &Vec<order::Comp>, base: &Vec<order::Comp>) -> (r: bool)
    ensures
        r == order::comps_view(base@).is_prefix_of(order::comps_view(root@)),
{
    let ghost rv = order::comps_view(root@);
    let ghost bv = order::comps_view(base@);
    if base.len() > root.len() {
        return false;
    }
    let mut i: usize = 0;
    while i < base.len()
        invariant
            i <= base@.len(),
            base@.len() <= root@.len(),
            rv == order::comps_view(root@),
            bv == order::comps_view(base@),
            forall|k: int| 0 <= k < i ==> bv[k] == rv[k],
        decreases base@.len() - i,
    {
        let same = {
            let one: Vec<order::Comp> = vec![copy(&base[i])];
            let two: Vec<order::Comp> = vec![copy(&root[i])];
            assert(order::comps_view(one@) =~= seq![bv[i as int]]);
            assert(order::comps_view(two@) =~= seq![rv[i as int]]);
            same_components(&one, &two)
        };
        if !same {
            assert(bv[i as int] != rv[i as int]) by {
                if bv[i as int] == rv[i as int] {
                    assert(seq![bv[i as int]] =~= seq![rv[i as int]]);
                }
            }
            return false;
        }
        assert(seq![bv[i as int]] == seq![rv[i as int]]);
        assert(seq![bv[i as int]][0] == bv[i as int]);
        i = i + 1;
    }
    assert(bv =~= rv.take(bv.len() as int));
    true
}

fn copy(c: &order::Comp) -> (r: order::Comp)
    ensures
        r@ == c@,
{
    match c {
        order::Comp::Root => order::Comp::Root,
        order::Comp::Cur => order::Comp::Cur,
        order::Comp::Parent => order::Comp::Parent,
        order::Comp::Normal(n) => order::Comp::Normal(text::slice_of(n, 0, n.len())),
    }
}

/// Every root worth walking from `roots` (already in their canonical form): sorted by
/// path, so any container of a path comes before it, and each dropped when it lies
/// inside a root already kept. A tree is then walked once however many of its
/// repositories are registered.
pub fn dedupe_nested(roots: &Vec<String>) -> (r: Vec<String>)
    ensures
        exists|idx: Seq<usize>, sorted: Seq<Seq<char>>| #[trigger] sorted_from(sorted, text::views(roots@), idx)
            && text::views(r@) == kept_roots(sorted),
{
    let ghost rv = text::views(roots@);
    let n = roots.len();
    let mut comps: Vec<Vec<order::Comp>> = Vec::new();
    let mut table: Vec<Vec<i8>> = Vec::new();
    let mut i: usize = 0;
    while i < n
        invariant
            i <= n,
            n == roots@.len(),
            rv == text::views(roots@),
            table@.len() == i,
            forall|x: int| 0 <= x < i ==> (#[trigger] table@[x])@.len() == n,
            forall|x: int, y: int| 0 <= x < i && 0 <= y < n ==> #[trigger] table@[x]@[y] as int == order::path_order(rv[x], rv[y]),
        decreases n - i,
    {
        let mut row: Vec<i8> = Vec::new();
        let mut j: usize = 0;
        while j < n
            invariant
                j <= n,
                i < n,
                n == roots@.len(),
                rv == text::views(roots@),
                row@.len() == j,
                forall|y: int| 0 <= y < j ==> #[trigger] row@[y] as int == order::path_order(rv[i as int], rv[y]),
            decreases n - j,
        {
            row.push(order::compare_paths(roots[i].as_str(), roots[j].as_str()));
            j = j + 1;
        }
        table.push(row);
        i = i + 1;
    }
    let ghost tv = order::table_view(table@);
    assert forall|x: int, y: int| 0 <= x < n && 0 <= y < n implies #[trigger] tv[x][y] as int == order::path_order(rv[x], rv[y]) by {
        assert(tv[x] == table@[x]@);
    }
    assert(order::is_preorder_table(tv, n as nat)) by {
        assert forall|x: int| 0 <= x < n implies (#[trigger] tv[x]).len() == n by {
            assert(tv[x] == table@[x]@);
        }
        assert forall|x: int, y: int| 0 <= x < n && 0 <= y < n implies #[trigger] tv[x][y] == -tv[y][x] by {
            order::law_paths_are_totally_ordered(rv[x], rv[y], rv[y]);
        }
        assert forall|x: int, y: int, z: int|
            0 <= x < n && 0 <= y < n && 0 <= z < n && #[trigger] tv[x][y] <= 0 && #[trigger] tv[y][z] <= 0 implies tv[x][z] <= 0 by {
            order::law_paths_are_totally_ordered(rv[x], rv[y], rv[z]);
        }
    }
    let idx = order::sort_by_table(&table);
    let ghost sorted = Seq::new(n as nat, |k: int| rv[idx@[k] as int]);
    assert(sorted_from(sorted, rv, idx@)) by {
        assert forall|a: int, b: int| 0 <= a < b < sorted.len() implies order::path_order(sorted[a], sorted[b]) <= 0 by {
            assert(tv[idx@[a] as int][idx@[b] as int] <= 0);
        }
        assert forall|a: int, b: int| 0 <= a < b < sorted.len() && order::path_order(sorted[a], sorted[b]) == 0 implies idx@[a] < idx@[b] by {
            assert(tv[idx@[a] as int][idx@[b] as int] == 0);
        }
    }
    let mut kept: Vec<String> = Vec::new();
    let mut kept_comps: Vec<Vec<order::Comp>> = Vec::new();
    let mut k: usize = 0;
    while k < n
        invariant
            k <= n,
            n == roots@.len(),
            rv == text::views(roots@),
            order::is_permutation(idx@, n as nat),
            sorted == Seq::new(n as nat, |m: int| rv[idx@[m] as int]),
            text::views(kept@) == kept_roots(sorted.take(k as int)),
            kept_comps@.len() == kept@.len(),
            forall|m: int| 0 <= m < kept@.len() ==> order::comps_view(#[trigger] kept_comps@[m]@) == order::components_of(kept@[m]@),
        decreases n - k,
    {
        let root = &roots[idx[k]];
        let rc = order::components(root.as_str());
        let ghost kv = text::views(kept@);
        assert(sorted.take(k + 1).drop_last() == sorted.take(k as int));
        assert(sorted.take(k + 1).last() == root@);
        let mut found = false;
        let mut m: usize = 0;
        while m < kept_comps.len()
            invariant
                m <= kept_comps@.len(),
                kept_comps@.len() == kept@.len(),
                kv == text::views(kept@),
                order::comps_view(rc@) == order::components_of(root@),
                forall|q: int| 0 <= q < kept@.len() ==> order::comps_view(#[trigger] kept_comps@[q]@) == order::components_of(kept@[q]@),
                found == exists|q: int| 0 <= q < m && inside(root@, #[trigger] kv[q]),
                kv.len() == kept@.len(),
            decreases kept_comps@.len() - m,
        {
            let ins = is_inside(&rc, &kept_comps[m]);
            assert(kv[m as int] == kept@[m as int]@);
            if ins {
                found = true;
            }
            assert(found == exists|q: int| 0 <= q < m + 1 && inside(root@, #[trigger] kv[q])) by {
                if ins {
                    assert(inside(root@, kv[m as int]));
                }
                if exists|q: int| 0 <= q < m + 1 && inside(root@, #[trigger] kv[q]) {
                    let q = choose|q: int| 0 <= q < m + 1 && inside(root@, #[trigger] kv[q]);
                    if q == m {
                        assert(ins);
                    }
                }
            }
            m = m + 1;
        }
        if !found {
            let ghost before = text::views(kept@);
            kept.push(root.clone());
            kept_comps.push(rc);
            assert(text::views(kept@) =~= before.push(root@));
        }
        k = k + 1;
    }
    assert(sorted.take(k as int) == sorted);
    kept
}

// ---------------------------------------------------------------------------------
// What a pass found
// ---------------------------------------------------------------------------------

/// What one discovery pass found: repositories not in the registry and not opted out;
/// how many were skipped for an opt-out file or for being a package manager's
/// disposable checkout (counted rather than dropped, so "found nothing" never hides
/// fifty opt-outs); and the roots that were walked.
pub struct Discovery {
    /// New repositories.
    pub found: Vec<String>,
    /// Repositories holding the opt-out file.
    pub opted_out: usize,
    /// Repositories that are a package manager's disposable checkout.
    pub throwaway: usize,
    /// The directories walked.
    pub roots: Vec<String>,
}

/// Whether a path is among `seen`, by components.
pub open spec fn seen_before(seen: Seq<Seq<char>>, repo: Seq<char>) -> bool {
    exists|k: int| 0 <= k < seen.len() && order::components_of(#[trigger] seen[k]) == order::components_of(repo)
}

/// Account for one repository a walk turned up: nothing if an earlier root already
/// turned it up or it is registered; counted if it is a disposable checkout or opted
/// out (the opt-out is honoured before registration, not only before deletion);
/// otherwise found. `seen` collects every repository looked at.
pub fn note_repo(
    d: &mut Discovery,
    seen: &mut Vec<String>,
    repo: &str,
    registered: bool,
    throwaway: bool,
    opted_out: bool,
)
    requires
        old(d).throwaway < usize::MAX,
        old(d).opted_out < usize::MAX,
    ensures
        if seen_before(text::views(old(seen)@), repo@) {
            &&& text::views(final(seen)@) == text::views(old(seen)@)
            &&& text::views(final(d).found@) == text::views(old(d).found@)
            &&& final(d).throwaway == old(d).throwaway
            &&& final(d).opted_out == old(d).opted_out
        } else {
            &&& text::views(final(seen)@) == text::views(old(seen)@).push(repo@)
            &&& text::views(final(d).found@) == if !registered && !throwaway && !opted_out {
                text::views(old(d).found@).push(repo@)
            } else {
                text::views(old(d).found@)
            }
            &&& final(d).throwaway == old(d).throwaway + if !registered && throwaway { 1int } else { 0int }
            &&& final(d).opted_out == old(d).opted_out + if !registered && !throwaway && opted_out { 1int } else { 0int }
        },
        text::views(final(d).roots@) == text::views(old(d).roots@),
{
    let rc = order::components(repo);
    let ghost sv = text::views(seen@);
    let mut i: usize = 0;
    while i < seen.len()
        invariant
            i <= seen@.len(),
            sv == text::views(seen@),
            order::comps_view(rc@) == order::components_of(repo@),
            forall|k: int| 0 <= k < i ==> order::components_of(#[trigger] sv[k]) != order::components_of(repo@),
        decreases seen@.len() - i,
    {
        let c = order::components(seen[i].as_str());
        assert(sv[i as int] == seen@[i as int]@);
        if same_components(&c, &rc) {
            return;
        }
        i = i + 1;
    }
    let ghost before = text::views(seen@);
    seen.push(text::owned(repo));
    assert(text::views(seen@) =~= before.push(repo@));
    if registered {
        return;
    }
    if throwaway {
        d.throwaway = d.throwaway + 1;
        return;
    }
    if opted_out {
        d.opted_out = d.opted_out + 1;
        return;
    }
    let ghost found = text::views(d.found@);
    d.found.push(text::owned(repo));
    assert(text::views(d.found@) =~= found.push(repo@));
}

/// The finds in path order, as the report lists them (equal paths keep their order).
pub fn sorted_finds(found: &Vec<String>) -> (r: Vec<String>)
    ensures
        exists|idx: Seq<usize>| #[trigger] sorted_from(text::views(r@), text::views(found@), idx),
{
    let ghost rv = text::views(found@);
    let n = found.len();
    let mut table: Vec<Vec<i8>> = Vec::new();
    let mut i: usize = 0;
    while i < n
        invariant
            i <= n,
            n == found@.len(),
            rv == text::views(found@),
            table@.len() == i,
            forall|x: int| 0 <= x < i ==> (#[trigger] table@[x])@.len() == n,
            forall|x: int, y: int| 0 <= x < i && 0 <= y < n ==> #[trigger] table@[x]@[y] as int == order::path_order(rv[x], rv[y]),
        decreases n - i,
    {
        let mut row: Vec<i8> = Vec::new();
        let mut j: usize = 0;
        while j < n
            invariant
                j <= n,
                i < n,
                n == found@.len(),
                rv == text::views(found@),
                row@.len() == j,
                forall|y: int| 0 <= y < j ==> #[trigger] row@[y] as int == order::path_order(rv[i as int], rv[y]),
            decreases n - j,
        {
            row.push(order::compare_paths(found[i].as_str(), found[j].as_str()));
            j = j + 1;
        }
        table.push(row);
        i = i + 1;
    }
    let ghost tv = order::table_view(table@);
    assert forall|x: int, y: int| 0 <= x < n && 0 <= y < n implies #[trigger] tv[x][y] as int == order::path_order(rv[x], rv[y]) by {
        assert(tv[x] == table@[x]@);
    }
    assert(order::is_preorder_table(tv, n as nat)) by {
        assert forall|x: int| 0 <= x < n implies (#[trigger] tv[x]).len() == n by {
            assert(tv[x] == table@[x]@);
        }
        assert forall|x: int, y: int| 0 <= x < n && 0 <= y < n implies #[trigger] tv[x][y] == -tv[y][x] by {
            order::law_paths_are_totally_ordered(rv[x], rv[y], rv[y]);
        }
        assert forall|x: int, y: int, z: int|
            0 <= x < n && 0 <= y < n && 0 <= z < n && #[trigger] tv[x][y] <= 0 && #[trigger] tv[y][z] <= 0 implies tv[x][z] <= 0 by {
            order::law_paths_are_totally_ordered(rv[x], rv[y], rv[z]);
        }
    }
    let idx = order::sort_by_table(&table);
    let mut out: Vec<String> = Vec::new();
    let mut k: usize = 0;
    while k < n
        invariant
            k <= n,
            n == found@.len(),
            rv == text::views(found@),
            order::is_permutation(idx@, n as nat),
            text::views(out@) == Seq::new(k as nat, |m: int| rv[idx@[m] as int]),
        decreases n - k,
    {
        let ghost before = text::views(out@);
        let pick = idx[k];
        let item = found[pick].clone();
        assert(item@ == rv[idx@[k as int] as int]);
        out.push(item);
        assert(text::views(out@) =~= before.push(rv[idx@[k as int] as int]));
        assert(text::views(out@) =~= Seq::new((k + 1) as nat, |m: int| rv[idx@[m] as int]));
        k = k + 1;
    }
    proof {
        let sorted = text::views(out@);
        assert forall|a: int, b: int| 0 <= a < b < sorted.len() implies order::path_order(sorted[a], sorted[b]) <= 0 by {
            assert(tv[idx@[a] as int][idx@[b] as int] <= 0);
        }
        assert forall|a: int, b: int| 0 <= a < b < sorted.len() && order::path_order(sorted[a], sorted[b]) == 0 implies idx@[a] < idx@[b] by {
            assert(tv[idx@[a] as int][idx@[b] as int] == 0);
        }
        assert(sorted_from(sorted, rv, idx@));
    }
    out
}

// ---------------------------------------------------------------------------------
// Laws
// ---------------------------------------------------------------------------------

proof fn lemma_prefix_sorts_first(a: Seq<Component>, b: Seq<Component>)
    requires
        a.is_prefix_of(b),
    ensures
        order::components_order(a, b) <= 0,
    decreases a.len(),
{
    if a.len() > 0 {
        assert(a[0] == b[0]);
        order::lemma_components_order(seq![a[0]], seq![b[0]]);
        assert(order::component_order(a[0], b[0]) == 0) by {
            lemma_component_refl(a[0]);
        }
        assert(a.drop_first().is_prefix_of(b.drop_first())) by {
            assert forall|k: int| 0 <= k < a.drop_first().len() implies a.drop_first()[k] == b.drop_first()[k] by {
                assert(a[k + 1] == b[k + 1]);
            }
        }
        lemma_prefix_sorts_first(a.drop_first(), b.drop_first());
    }
}

proof fn lemma_component_refl(c: Component)
    ensures
        order::component_order(c, c) == 0,
{
    match c {
        Component::Normal(x) => {
            order::lemma_text_order(x, x);
        },
        _ => {},
    }
}

proof fn lemma_kept_cover(roots: Seq<Seq<char>>)
    ensures
        forall|j: int| 0 <= j < roots.len() ==> inside_any(#[trigger] roots[j], kept_roots(roots)),
    decreases roots.len(),
{
    if roots.len() > 0 {
        let rest = roots.drop_last();
        lemma_kept_cover(rest);
        let kept0 = kept_roots(rest);
        let kept = kept_roots(roots);
        assert forall|j: int| 0 <= j < roots.len() implies inside_any(#[trigger] roots[j], kept) by {
            if j < rest.len() {
                assert(rest[j] == roots[j]);
                assert(inside_any(rest[j], kept0));
                let k = choose|k: int| 0 <= k < kept0.len() && inside(rest[j], #[trigger] kept0[k]);
                assert(kept[k] == kept0[k]);
            } else if inside_any(roots.last(), kept0) {
                let k = choose|k: int| 0 <= k < kept0.len() && inside(roots.last(), #[trigger] kept0[k]);
                assert(kept[k] == kept0[k]);
            } else {
                assert(kept[kept.len() - 1] == roots[j]);
                assert(order::components_of(roots[j]).is_prefix_of(order::components_of(roots[j])));
            }
        }
    }
}

proof fn lemma_kept_from(roots: Seq<Seq<char>>)
    ensures
        forall|k: int| 0 <= k < kept_roots(roots).len() ==> roots.contains(#[trigger] kept_roots(roots)[k]),
    decreases roots.len(),
{
    if roots.len() > 0 {
        let rest = roots.drop_last();
        lemma_kept_from(rest);
        let kept0 = kept_roots(rest);
        let kept = kept_roots(roots);
        assert forall|k: int| 0 <= k < kept.len() implies roots.contains(#[trigger] kept[k]) by {
            if k < kept0.len() {
                assert(kept[k] == kept0[k]);
                assert(rest.contains(kept0[k]));
                let j = choose|j: int| 0 <= j < rest.len() && rest[j] == kept0[k];
                assert(roots[j] == rest[j]);
            } else {
                assert(kept[k] == roots[roots.len() - 1]);
            }
        }
    }
}

proof fn lemma_kept_fold(roots: Seq<Seq<char>>)
    ensures
        forall|i: int, j: int| 0 <= i < j < kept_roots(roots).len() ==> !#[trigger] inside(kept_roots(roots)[j], kept_roots(roots)[i]),
    decreases roots.len(),
{
    if roots.len() > 0 {
        let rest = roots.drop_last();
        lemma_kept_fold(rest);
        let kept0 = kept_roots(rest);
        let kept = kept_roots(roots);
        assert forall|i: int, j: int| 0 <= i < j < kept.len() implies !#[trigger] inside(kept[j], kept[i]) by {
            if j < kept0.len() {
                assert(kept[i] == kept0[i] && kept[j] == kept0[j]);
            } else {
                assert(kept[i] == kept0[i]);
                assert(kept[j] == roots.last());
                assert(!inside_any(roots.last(), kept0));
            }
        }
    }
}

/// Every root lies inside one of the roots kept from it (so nothing a root would have
/// found is missed), and, when the roots come in path order as [`dedupe_nested`] puts
/// them, no kept root lies inside another (so no tree is walked twice).
pub proof fn law_a_tree_is_walked_once(roots: Seq<Seq<char>>)
    ensures
        forall|j: int| 0 <= j < roots.len() ==> inside_any(#[trigger] roots[j], kept_roots(roots)),
        (forall|a: int, b: int| 0 <= a < b < roots.len() ==> order::path_order(roots[a], roots[b]) <= 0)
            ==> forall|i: int, j: int| 0 <= i < kept_roots(roots).len() && 0 <= j < kept_roots(roots).len() && i != j
            ==> !#[trigger] inside(kept_roots(roots)[j], kept_roots(roots)[i]),
{
    lemma_kept_cover(roots);
    lemma_kept_fold(roots);
    let kept = kept_roots(roots);
    if forall|a: int, b: int| 0 <= a < b < roots.len() ==> order::path_order(roots[a], roots[b]) <= 0 {
        lemma_kept_sorted(roots);
        assert forall|i: int, j: int| 0 <= i < kept.len() && 0 <= j < kept.len() && i != j
            implies !#[trigger] inside(kept[j], kept[i]) by {
            if i > j && inside(kept[j], kept[i]) {
                let a = order::components_of(kept[i]);
                let b = order::components_of(kept[j]);
                lemma_prefix_sorts_first(a, b);
                order::lemma_components_order(a, b);
                assert(order::path_order(kept[j], kept[i]) <= 0);
                assert(a == b);
                assert(inside(kept[i], kept[j]));
            }
        }
    }
}

proof fn lemma_kept_sorted(roots: Seq<Seq<char>>)
    requires
        forall|a: int, b: int| 0 <= a < b < roots.len() ==> order::path_order(roots[a], roots[b]) <= 0,
    ensures
        forall|a: int, b: int| 0 <= a < b < kept_roots(roots).len() ==> order::path_order(kept_roots(roots)[a], kept_roots(roots)[b]) <= 0,
    decreases roots.len(),
{
    if roots.len() > 0 {
        let rest = roots.drop_last();
        assert forall|a: int, b: int| 0 <= a < b < rest.len() implies order::path_order(rest[a], rest[b]) <= 0 by {
            assert(rest[a] == roots[a] && rest[b] == roots[b]);
        }
        lemma_kept_sorted(rest);
        lemma_kept_from(rest);
        let kept0 = kept_roots(rest);
        let kept = kept_roots(roots);
        assert forall|a: int, b: int| 0 <= a < b < kept.len() implies order::path_order(kept[a], kept[b]) <= 0 by {
            if b < kept0.len() {
                assert(kept[a] == kept0[a] && kept[b] == kept0[b]);
            } else {
                assert(kept[a] == kept0[a]);
                assert(rest.contains(kept0[a]));
                let j = choose|j: int| 0 <= j < rest.len() && rest[j] == kept0[a];
                assert(rest[j] == roots[j]);
                assert(kept[b] == roots[roots.len() - 1]);
            }
        }
    }
}

} // verus!
