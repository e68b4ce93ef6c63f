//! The order rows are listed in: paths compared component by component as
//! `Path::cmp` compares them on Unix, and lists of rows sorted by a band and a path.
use vstd::prelude::*;

use crate::text;
use crate::update;

verus! {

broadcast use vstd::seq_lib::group_seq_properties;

// ---------------------------------------------------------------------------------
// Text
// ---------------------------------------------------------------------------------

/// Two texts compared character by character, a proper prefix first: `-1`, `0` or `1`.
/// This is the byte order of their UTF-8, which is how `OsStr` compares.
pub open spec fn text_order(a: Seq<char>, b: Seq<char>) -> int
    decreases a.len(),
{
    if a.len() == 0 {
        if b.len() == 0 {
            0
        } else {
            -1
        }
    } else if b.len() == 0 {
        1
    } else if a[0] != b[0] {
        if a[0] < b[0] {
            -1
        } else {
            1
        }
    } else {
        text_order(a.drop_first(), b.drop_first())
    }
}

/// Text order is antisymmetric, and says "equal" exactly for equal texts.
pub proof fn lemma_text_order(a: Seq<char>, b: Seq<char>)
    ensures
        text_order(a, b) == -text_order(b, a),
        (text_order(a, b) == 0) == (a == b),
        -1 <= text_order(a, b) <= 1,
    decreases a.len(),
{
    if a.len() > 0 && b.len() > 0 && a[0] == b[0] {
        lemma_text_order(a.drop_first(), b.drop_first());
        if a.drop_first() == b.drop_first() {
            assert(a =~= seq![a[0]] + a.drop_first());
            assert(b =~= seq![b[0]] + b.drop_first());
        }
    }
    if a == b {
        lemma_text_order_refl(a);
    }
}

proof fn lemma_text_order_refl(a: Seq<char>)
    ensures
        text_order(a, a) == 0,
    decreases a.len(),
{
    if a.len() > 0 {
        lemma_text_order_refl(a.drop_first());
    }
}

/// "Not after" in text order is transitive.
pub proof fn lemma_text_order_trans(a: Seq<char>, b: Seq<char>, c: Seq<char>)
    requires
        text_order(a, b) <= 0,
        text_order(b, c) <= 0,
    ensures
        text_order(a, c) <= 0,
    decreases a.len(),
{
    if a.len() > 0 && b.len() > 0 && c.len() > 0 && a[0] == b[0] && b[0] == c[0] {
        lemma_text_order_trans(a.drop_first(), b.drop_first(), c.drop_first());
    }
}

/// Two texts compared as [`text_order`] compares them.
pub fn text_order_exec(a: &[char], b: &[char]) -> (r: i8)
    ensures
        r as int == text_order(a@, b@),
{
    let mut i: usize = 0;
    while i < a.len() && i < b.len() && a[i] == b[i]
        invariant
            i <= a.len(),
            i <= b.len(),
            text_order(a@, b@) == text_order(a@.skip(i as int), b@.skip(i as int)),
        decreases a.len() - i,
    {
        assert(a@.skip(i as int).drop_first() == a@.skip(i + 1));
        assert(b@.skip(i as int).drop_first() == b@.skip(i + 1));
        i = i + 1;
    }
    if i == a.len() {
        if i == b.len() {
            0
        } else {
            -1
        }
    } else if i == b.len() {
        1
    } else if a[i] < b[i] {
        -1
    } else {
        1
    }
}

// ---------------------------------------------------------------------------------
// Components
// ---------------------------------------------------------------------------------

/// One component of a Unix path, in the order `Path::cmp` ranks the kinds: the root,
/// a leading `.`, a `..`, then names.
pub enum Component {
    Root,
    Cur,
    Parent,
    Normal(Seq<char>),
}

/// The rank of a component's kind.
pub open spec fn kind(c: Component) -> int {
    match c {
        Component::Root => 0,
        Component::Cur => 1,
        Component::Parent => 2,
        Component::Normal(_) => 3,
    }
}

/// What one `/`-separated piece contributes, at position `i` of a path that is or is
/// not rooted: nothing for an empty piece (repeated and trailing separators) or a `.`
/// anywhere but the very start of a relative path, a `..` as itself, a name as itself.
pub open spec fn piece_components(piece: Seq<char>, i: int, rooted: bool) -> Seq<Component> {
    if piece.len() == 0 {
        seq![]
    } else if piece == seq!['.'] {
        if i == 0 && !rooted {
            seq![Component::Cur]
        } else {
            seq![]
        }
    } else if piece == seq!['.', '.'] {
        seq![Component::Parent]
    } else {
        seq![Component::Normal(piece)]
    }
}

/// The components of the pieces, in order.
pub open spec fn pieces_components(pieces: Seq<Seq<char>>, rooted: bool) -> Seq<Component>
    decreases pieces.len(),
{
    if pieces.len() == 0 {
        seq![]
    } else {
        pieces_components(pieces.drop_last(), rooted) + piece_components(
            pieces.last(),
            pieces.len() - 1,
            rooted,
        )
    }
}

/// The components of a Unix path, as `Path::components` yields them.
pub open spec fn components_of(p: Seq<char>) -> Seq<Component> {
    let rooted = p.len() > 0 && p[0] == '/';
    (if rooted {
        seq![Component::Root]
    } else {
        seq![]
    }) + pieces_components(update::split_on(p, '/'), rooted)
}

/// A path component, at run time.
pub enum Comp {
    Root,
    Cur,
    Parent,
    Normal(Vec<char>),
}

impl View for Comp {
    type V = Component;

    open spec fn view(&self) -> Component {
        match self {
            Comp::Root => Component::Root,
            Comp::Cur => Component::Cur,
            Comp::Parent => Component::Parent,
            Comp::Normal(n) => Component::Normal(n@),
        }
    }
}

/// The abstract value of a list of components.
pub open spec fn comps_view(v: Seq<Comp>) -> Seq<Component> {
    v.map_values(|c: Comp| c@)
}

/// The components of a Unix path.
pub fn components(p: &str) -> (r: Vec<Comp>)
    ensures
        comps_view(r@) == components_of(p@),
{
    let chars = text::chars_of(p);
    let rooted = chars.len() > 0 && chars[0] == '/';
    let pieces = update::split_on_chars(&chars, '/');
    let ghost ps = text::seqs_of(pieces@);
    let mut out: Vec<Comp> = Vec::new();
    if rooted {
        out.push(Comp::Root);
    }
    let ghost head = comps_view(out@);
    assert(head =~= if rooted {
        seq![Component::Root]
    } else {
        seq![]
    });
    let mut i: usize = 0;
    while i < pieces.len()
        invariant
            i <= pieces@.len(),
            ps == text::seqs_of(pieces@),
            ps.len() == pieces@.len(),
            comps_view(out@) == head + pieces_components(ps.take(i as int), rooted),
        decreases pieces@.len() - i,
    {
        assert(ps.take(i + 1).drop_last() == ps.take(i as int));
        assert(ps.take(i + 1).last() == ps[i as int]);
        assert(ps[i as int] == pieces@[i as int]@);
        let piece = &pieces[i];
        let ghost before = comps_view(out@);
        if piece.len() == 0 {
            assert(piece_components(ps[i as int], i as int, rooted) =~= Seq::<Component>::empty());
        } else if piece.len() == 1 && piece[0] == '.' {
            assert(piece@ =~= seq!['.']);
            if i == 0 && !rooted {
                out.push(Comp::Cur);
            }
        } else if piece.len() == 2 && piece[0] == '.' && piece[1] == '.' {
            assert(piece@ =~= seq!['.', '.']);
            out.push(Comp::Parent);
        } else {
            assert(piece@ != seq!['.']);
            assert(piece@ != seq!['.', '.']);
            let copy = text::slice_of(piece, 0, piece.len());
            assert(copy@ =~= piece@);
            out.push(Comp::Normal(copy));
        }
        assert(comps_view(out@) =~= before + piece_components(ps[i as int], i as int, rooted));
        i = i + 1;
    }
    assert(ps.take(i as int) == ps);
    out
}

// ---------------------------------------------------------------------------------
// Comparing components and paths
// ---------------------------------------------------------------------------------

/// Two components compared: by kind, then names by their text.
pub open spec fn component_order(a: Component, b: Component) -> int {
    if kind(a) != kind(b) {
        if kind(a) < kind(b) {
            -1
        } else {
            1
        }
    } else {
        match (a, b) {
            (Component::Normal(x), Component::Normal(y)) => text_order(x, y),
            _ => 0,
        }
    }
}

proof fn lemma_component_order(a: Component, b: Component)
    ensures
        component_order(a, b) == -component_order(b, a),
        (component_order(a, b) == 0) == (a == b),
        -1 <= component_order(a, b) <= 1,
{
    match (a, b) {
        (Component::Normal(x), Component::Normal(y)) => {
            lemma_text_order(x, y);
        },
        _ => {},
    }
}

proof fn lemma_component_order_trans(a: Component, b: Component, c: Component)
    requires
        component_order(a, b) <= 0,
        component_order(b, c) <= 0,
    ensures
        component_order(a, c) <= 0,
{
    lemma_component_order(a, b);
    lemma_component_order(b, c);
    match (a, b, c) {
        (Component::Normal(x), Component::Normal(y), Component::Normal(z)) => {
            lemma_text_order_trans(x, y, z);
        },
        _ => {},
    }
}

/// Two lists of components compared lexicographically, a proper prefix first: the
/// order `Path::cmp` gives two paths.
pub open spec fn components_order(a: Seq<Component>, b: Seq<Component>) -> int
    decreases a.len(),
{
    if a.len() == 0 {
        if b.len() == 0 {
            0
        } else {
            -1
        }
    } else if b.len() == 0 {
        1
    } else if component_order(a[0], b[0]) != 0 {
        component_order(a[0], b[0])
    } else {
        components_order(a.drop_first(), b.drop_first())
    }
}

/// Component-list order is antisymmetric, and says "equal" exactly for equal lists.
pub proof fn lemma_components_order(a: Seq<Component>, b: Seq<Component>)
    ensures
        components_order(a, b) == -components_order(b, a),
        (components_order(a, b) == 0) == (a == b),
        -1 <= components_order(a, b) <= 1,
    decreases a.len(),
{
    if a.len() > 0 && b.len() > 0 {
        lemma_component_order(a[0], b[0]);
        if component_order(a[0], b[0]) == 0 {
            lemma_components_order(a.drop_first(), b.drop_first());
            if a.drop_first() == b.drop_first() {
                assert(a =~= seq![a[0]] + a.drop_first());
                assert(b =~= seq![b[0]] + b.drop_first());
            }
        }
    }
    if a == b {
        lemma_components_order_refl(a);
    }
}

proof fn lemma_components_order_refl(a: Seq<Component>)
    ensures
        components_order(a, a) == 0,
    decreases a.len(),
{
    if a.len() > 0 {
        lemma_component_order(a[0], a[0]);
        lemma_components_order_refl(a.drop_first());
    }
}

/// "Not after" in component-list order is transitive.
pub proof fn lemma_components_order_trans(a: Seq<Component>, b: Seq<Component>, c: Seq<Component>)
    requires
        components_order(a, b) <= 0,
        components_order(b, c) <= 0,
    ensures
        components_order(a, c) <= 0,
    decreases a.len(),
{
    if a.len() > 0 && b.len() > 0 && c.len() > 0 {
        lemma_component_order(a[0], b[0]);
        lemma_component_order(b[0], c[0]);
        lemma_component_order(a[0], c[0]);
        lemma_component_order_trans(a[0], b[0], c[0]);
        if component_order(a[0], b[0]) == 0 && component_order(b[0], c[0]) == 0 {
            lemma_components_order_trans(a.drop_first(), b.drop_first(), c.drop_first());
        } else if component_order(a[0], c[0]) == 0 {
            assert(a[0] == c[0]);
            lemma_component_order_trans(b[0], c[0], a[0]);
            assert(component_order(b[0], a[0]) <= 0);
            assert(a[0] == b[0]);
        }
    }
}

fn component_order_exec(a: &Comp, b: &Comp) -> (r: i8)
    ensures
        r as int == component_order(a@, b@),
{
    let ka: u8 = match a {
        Comp::Root => 0,
        Comp::Cur => 1,
        Comp::Parent => 2,
        Comp::Normal(_) => 3,
    };
    let kb: u8 = match b {
        Comp::Root => 0,
        Comp::Cur => 1,
        Comp::Parent => 2,
        Comp::Normal(_) => 3,
    };
    if ka != kb {
        if ka < kb {
            -1
        } else {
            1
        }
    } else {
        match (a, b) {
            (Comp::Normal(x), Comp::Normal(y)) => text_order_exec(x, y),
            _ => 0,
        }
    }
}

/// Two component lists compared as [`components_order`] compares them.
pub fn components_order_exec(a: &Vec<Comp>, b: &Vec<Comp>) -> (r: i8)
    ensures
        r as int == components_order(comps_view(a@), comps_view(b@)),
{
    let ghost av = comps_view(a@);
    let ghost bv = comps_view(b@);
    let mut i: usize = 0;
    while i < a.len() && i < b.len()
        invariant
            i <= a.len(),
            i <= b.len(),
            av == comps_view(a@),
            bv == comps_view(b@),
            components_order(av, bv) == components_order(av.skip(i as int), bv.skip(i as int)),
        decreases a.len() - i,
    {
        let c = component_order_exec(&a[i], &b[i]);
        assert(av.skip(i as int)[0] == a@[i as int]@);
        assert(bv.skip(i as int)[0] == b@[i as int]@);
        if c != 0 {
            return c;
        }
        assert(av.skip(i as int).drop_first() == av.skip(i + 1));
        assert(bv.skip(i as int).drop_first() == bv.skip(i + 1));
        i = i + 1;
    }
    if i == a.len() {
        if i == b.len() {
            0
        } else {
            -1
        }
    } else {
        1
    }
}

/// Two Unix paths compared as `Path::cmp` compares them: component by component.
pub open spec fn path_order(p: Seq<char>, q: Seq<char>) -> int {
    components_order(components_of(p), components_of(q))
}

/// Two Unix paths compared as `Path::cmp` compares them: `-1`, `0` or `1`.
pub fn compare_paths(p: &str, q: &str) -> (r: i8)
    ensures
        r as int == path_order(p@, q@),
{
    let a = components(p);
    let b = components(q);
    components_order_exec(&a, &b)
}

// ---------------------------------------------------------------------------------
// Sorting rows by band and path
// ---------------------------------------------------------------------------------

/// A row's sort key: its band first, then its path's components.
pub open spec fn key_order(a: (u8, Seq<Component>), b: (u8, Seq<Component>)) -> int {
    if a.0 != b.0 {
        if a.0 < b.0 {
            -1
        } else {
            1
        }
    } else {
        components_order(a.1, b.1)
    }
}

proof fn lemma_key_order(a: (u8, Seq<Component>), b: (u8, Seq<Component>))
    ensures
        key_order(a, b) == -key_order(b, a),
        -1 <= key_order(a, b) <= 1,
{
    lemma_components_order(a.1, b.1);
}

proof fn lemma_key_order_trans(a: (u8, Seq<Component>), b: (u8, Seq<Component>), c: (u8, Seq<Component>))
    requires
        key_order(a, b) <= 0,
        key_order(b, c) <= 0,
    ensures
        key_order(a, c) <= 0,
{
    if a.0 == b.0 && b.0 == c.0 {
        lemma_components_order_trans(a.1, b.1, c.1);
    }
}

/// The sort keys of rows given their bands and paths.
pub open spec fn keys_of(bands: Seq<u8>, paths: Seq<Seq<char>>) -> Seq<(u8, Seq<Component>)> {
    Seq::new(bands.len(), |i: int| (bands[i], components_of(paths[i])))
}

/// Whether `idx` lists every row exactly once.
pub open spec fn is_permutation(idx: Seq<usize>, n: nat) -> bool {
    &&& idx.len() == n
    &&& idx.no_duplicates()
    &&& forall|k: int| 0 <= k < idx.len() ==> #[trigger] idx[k] < n
}

/// Whether `idx` lists rows in nondecreasing key order.
pub open spec fn is_sorted_by(idx: Seq<usize>, keys: Seq<(u8, Seq<Component>)>) -> bool {
    forall|a: int, b: int| 0 <= a < b < idx.len() ==> key_order(keys[idx[a] as int], keys[idx[b] as int]) <= 0
}

fn key_order_exec(ba: u8, ca: &Vec<Comp>, bb: u8, cb: &Vec<Comp>) -> (r: i8)
    ensures
        r as int == key_order((ba, comps_view(ca@)), (bb, comps_view(cb@))),
{
    if ba != bb {
        if ba < bb {
            -1
        } else {
            1
        }
    } else {
        components_order_exec(ca, cb)
    }
}

/// The order to list rows in: by band, and by path within a band, as `Path::cmp`
/// orders paths. Returns row indices.
pub fn sorted_rows(bands: &Vec<u8>, paths: &Vec<String>) -> (r: Vec<usize>)
    requires
        bands@.len() == paths@.len(),
    ensures
        is_permutation(r@, bands@.len()),
        is_sorted_by(r@, keys_of(bands@, text::views(paths@))),
{
    let ghost keys = keys_of(bands@, text::views(paths@));
    let n = bands.len();
    let mut comps: Vec<Vec<Comp>> = Vec::new();
    let mut j: usize = 0;
    while j < n
        invariant
            j <= n,
            n == bands@.len(),
            n == paths@.len(),
            keys.len() == n,
            comps@.len() == j,
            keys == keys_of(bands@, text::views(paths@)),
            forall|k: int| 0 <= k < j ==> comps_view(#[trigger] comps@[k]@) == keys[k].1,
        decreases n - j,
    {
        let c = components(paths[j].as_str());
        comps.push(c);
        j = j + 1;
    }
    let mut out: Vec<usize> = Vec::new();
    let mut i: usize = 0;
    while i < n
        invariant
            i <= n,
            n == bands@.len(),
            comps@.len() == n,
            keys.len() == n,
            keys == keys_of(bands@, text::views(paths@)),
            forall|k: int| 0 <= k < n ==> comps_view(#[trigger] comps@[k]@) == keys[k].1,
            forall|k: int| 0 <= k < n ==> (#[trigger] keys[k]).0 == bands@[k],
            out@.len() == i,
            out@.no_duplicates(),
            forall|k: int| 0 <= k < out@.len() ==> #[trigger] out@[k] < i,
            is_sorted_by(out@, keys),
        decreases n - i,
    {
        let mut pos: usize = 0;
        while pos < out.len() && key_order_exec(bands[out[pos]], &comps[out[pos]], bands[i], &comps[i]) <= 0
            invariant
                pos <= out@.len(),
                i < n,
                n == bands@.len(),
                comps@.len() == n,
                keys.len() == n,
                forall|k: int| 0 <= k < n ==> comps_view(#[trigger] comps@[k]@) == keys[k].1,
                forall|k: int| 0 <= k < n ==> (#[trigger] keys[k]).0 == bands@[k],
                forall|k: int| 0 <= k < out@.len() ==> #[trigger] out@[k] < i,
                forall|k: int| 0 <= k < pos ==> key_order(keys[#[trigger] out@[k] as int], keys[i as int]) <= 0,
            decreases out@.len() - pos,
        {
            pos = pos + 1;
        }
        let ghost before = out@;
        proof {
            if pos < before.len() {
                lemma_key_order(keys[before[pos as int] as int], keys[i as int]);
            }
            assert forall|a: int, b: int| 0 <= a < b < before.len() + 1 implies key_order(
                keys[before.insert(pos as int, i)[a] as int],
                keys[before.insert(pos as int, i)[b] as int],
            ) <= 0 by {
                let s = before.insert(pos as int, i);
                if a < pos && b == pos {
                } else if a == pos && b > pos {
                    assert(s[b] == before[b - 1]);
                    if b - 1 > pos {
                        lemma_key_order_trans(keys[i as int], keys[before[pos as int] as int], keys[before[b - 1] as int]);
                    }
                } else if a < pos && b > pos {
                    assert(s[a] == before[a]);
                    assert(s[b] == before[b - 1]);
                } else if b < pos {
                    assert(s[a] == before[a]);
                    assert(s[b] == before[b]);
                } else {
                    assert(s[a] == before[a - 1]);
                    assert(s[b] == before[b - 1]);
                }
            }
            assert forall|k: int| 0 <= k < before.len() + 1 implies #[trigger] before.insert(pos as int, i)[k] < i + 1 by {
                if k < pos {
                } else if k > pos {
                    assert(before.insert(pos as int, i)[k] == before[k - 1]);
                }
            }
            assert(before.insert(pos as int, i).no_duplicates()) by {
                let s = before.insert(pos as int, i);
                assert forall|a: int, b: int| 0 <= a < s.len() && 0 <= b < s.len() && a != b implies s[a] != s[b] by {
                    if a == pos {
                        if b > pos {
                            assert(s[b] == before[b - 1]);
                        }
                    } else if b == pos {
                        if a > pos {
                            assert(s[a] == before[a - 1]);
                        }
                    } else {
                        let aa = if a < pos { a } else { a - 1 };
                        let bb = if b < pos { b } else { b - 1 };
                        assert(s[a] == before[aa]);
                        assert(s[b] == before[bb]);
                    }
                }
            }
        }
        out.insert(pos, i);
        i = i + 1;
    }
    out
}

/// Paths are totally ordered component by component: swapping the two reverses the
/// answer, the answer is "equal" exactly when the components are, and the order is
/// transitive. Sorting by it is therefore well defined.
pub proof fn law_paths_are_totally_ordered(p: Seq<char>, q: Seq<char>, r: Seq<char>)
    ensures
        path_order(p, q) == -path_order(q, p),
        (path_order(p, q) == 0) == (components_of(p) == components_of(q)),
        path_order(p, q) <= 0 && path_order(q, r) <= 0 ==> path_order(p, r) <= 0,
{
    lemma_components_order(components_of(p), components_of(q));
    if path_order(p, q) <= 0 && path_order(q, r) <= 0 {
        lemma_components_order_trans(components_of(p), components_of(q), components_of(r));
    }
}

// ---------------------------------------------------------------------------------
// Sorting by a table of comparisons
// ---------------------------------------------------------------------------------

/// The abstract value of a comparison table: `t[i][j]` compares row `i` with row `j`.
pub open spec fn table_view(t: Seq<Vec<i8>>) -> Seq<Seq<i8>> {
    t.map_values(|row: Vec<i8>| row@)
}

/// Whether a table of comparisons between `n` rows is a total preorder: square,
/// swapping two rows reverses the answer, and "not after" is transitive.
pub open spec fn is_preorder_table(t: Seq<Seq<i8>>, n: nat) -> bool {
    &&& t.len() == n
    &&& forall|i: int| 0 <= i < n ==> (#[trigger] t[i]).len() == n
    &&& forall|i: int, j: int| 0 <= i < n && 0 <= j < n ==> #[trigger] t[i][j] == -t[j][i]
    &&& forall|i: int, j: int, k: int|
        0 <= i < n && 0 <= j < n && 0 <= k < n && #[trigger] t[i][j] <= 0 && #[trigger] t[j][k] <= 0
            ==> t[i][k] <= 0
}

/// Whether `idx` lists rows in the table's order, rows that compare equal in their
/// original order.
pub open spec fn is_stably_sorted(idx: Seq<usize>, t: Seq<Seq<i8>>) -> bool {
    &&& forall|a: int, b: int| 0 <= a < b < idx.len() ==> t[idx[a] as int][idx[b] as int] <= 0
    &&& forall|a: int, b: int|
        0 <= a < b < idx.len() && t[idx[a] as int][idx[b] as int] == 0 ==> idx[a] < idx[b]
}

proof fn lemma_insert_keeps_order(before: Seq<usize>, pos: int, i: usize, tv: Seq<Seq<i8>>, n: nat)
    requires
        is_preorder_table(tv, n),
        i < n,
        0 <= pos <= before.len(),
        before.no_duplicates(),
        forall|k: int| 0 <= k < before.len() ==> #[trigger] before[k] < i,
        is_stably_sorted(before, tv),
        forall|k: int| 0 <= k < pos ==> tv[#[trigger] before[k] as int][i as int] <= 0,
        pos < before.len() ==> tv[before[pos] as int][i as int] > 0,
    ensures
        ({
            let s = before.insert(pos, i);
            &&& s.no_duplicates()
            &&& forall|k: int| 0 <= k < s.len() ==> #[trigger] s[k] < i + 1
            &&& is_stably_sorted(s, tv)
        }),
{
    let s = before.insert(pos, i);
    if pos < before.len() {
        assert(tv[i as int][before[pos] as int] < 0);
    }
    assert forall|a: int, b: int| 0 <= a < b < s.len() implies tv[s[a] as int][s[b] as int] <= 0 by {
        if a < pos && b == pos {
        } else if a == pos && b > pos {
            assert(s[b] == before[b - 1]);
            if b - 1 > pos {
                assert(tv[before[pos] as int][before[b - 1] as int] <= 0);
            }
        } else if a < pos && b > pos {
            assert(s[a] == before[a]);
            assert(s[b] == before[b - 1]);
        } else if b < pos {
            assert(s[a] == before[a]);
            assert(s[b] == before[b]);
        } else {
            assert(s[a] == before[a - 1]);
            assert(s[b] == before[b - 1]);
        }
    }
    assert forall|a: int, b: int|
        0 <= a < b < s.len() && tv[s[a] as int][s[b] as int] == 0 implies s[a] < s[b] by {
        if a < pos && b == pos {
        } else if a == pos && b > pos {
            assert(s[b] == before[b - 1]);
            if b - 1 > pos {
                assert(tv[before[pos] as int][before[b - 1] as int] <= 0);
            }
            assert(tv[i as int][before[b - 1] as int] < 0);
        } else if a < pos && b > pos {
            assert(s[a] == before[a]);
            assert(s[b] == before[b - 1]);
        } else if b < pos {
            assert(s[a] == before[a]);
            assert(s[b] == before[b]);
        } else {
            assert(s[a] == before[a - 1]);
            assert(s[b] == before[b - 1]);
        }
    }
    assert forall|k: int| 0 <= k < s.len() implies #[trigger] s[k] < i + 1 by {
        if k > pos {
            assert(s[k] == before[k - 1]);
        }
    }
    assert forall|a: int, b: int| 0 <= a < s.len() && 0 <= b < s.len() && a != b implies s[a] != s[b] by {
        if a == pos {
            if b > pos {
                assert(s[b] == before[b - 1]);
            }
        } else if b == pos {
            if a > pos {
                assert(s[a] == before[a - 1]);
            }
        } else {
            let aa = if a < pos { a } else { a - 1 };
            let bb = if b < pos { b } else { b - 1 };
            assert(s[a] == before[aa]);
            assert(s[b] == before[bb]);
        }
    }
}

/// The rows in the table's order, stably: what `sort_by` gives with a comparator that
/// answers as the table does.
pub fn sort_by_table(t: &Vec<Vec<i8>>) -> (r: Vec<usize>)
    requires
        is_preorder_table(table_view(t@), t@.len()),
    ensures
        is_permutation(r@, t@.len()),
        is_stably_sorted(r@, table_view(t@)),
{
    let ghost tv = table_view(t@);
    let n = t.len();
    let mut out: Vec<usize> = Vec::new();
    let mut i: usize = 0;
    while i < n
        invariant
            i <= n,
            n == t@.len(),
            tv == table_view(t@),
            is_preorder_table(tv, n as nat),
            out@.len() == i,
            out@.no_duplicates(),
            forall|k: int| 0 <= k < out@.len() ==> #[trigger] out@[k] < i,
            is_stably_sorted(out@, tv),
        decreases n - i,
    {
        assert forall|k: int| 0 <= k < n implies (#[trigger] t@[k])@.len() == n by {
            assert(tv[k] == t@[k]@);
        }
        let mut pos: usize = 0;
        while pos < out.len() && t[out[pos]][i] <= 0
            invariant
                pos <= out@.len(),
                i < n,
                n == t@.len(),
                forall|k: int| 0 <= k < n ==> (#[trigger] t@[k])@.len() == n,
                tv == table_view(t@),
                is_preorder_table(tv, n as nat),
                forall|k: int| 0 <= k < out@.len() ==> #[trigger] out@[k] < i,
                forall|k: int| 0 <= k < pos ==> tv[#[trigger] out@[k] as int][i as int] <= 0,
            decreases out@.len() - pos,
        {
            assert(tv[out@[pos as int] as int] == t@[out@[pos as int] as int]@);
            pos = pos + 1;
        }
        let ghost before = out@;
        proof {
            if pos < before.len() {
                assert(tv[before[pos as int] as int] == t@[before[pos as int] as int]@);
            }
            lemma_insert_keeps_order(before, pos as int, i, tv, n as nat);
        }
        out.insert(pos, i);
        i = i + 1;
    }
    out
}

// ---------------------------------------------------------------------------------
// Resolving a path that no longer exists
// ---------------------------------------------------------------------------------

/// `PathBuf::pop` on components: everything but the last, unless nothing is left
/// above it (the root alone, or nothing at all).
pub open spec fn popped(c: Seq<Component>) -> Seq<Component> {
    if c.len() == 0 || c == seq![Component::Root] {
        c
    } else {
        c.drop_last()
    }
}

/// The components left after walking `path`'s components onto `start`: a `.` does
/// nothing, a `..` pops, anything else is appended.
pub open spec fn walked(start: Seq<Component>, comps: Seq<Component>) -> Seq<Component>
    decreases comps.len(),
{
    if comps.len() == 0 {
        start
    } else {
        let before = walked(start, comps.drop_last());
        match comps.last() {
            Component::Cur => before,
            Component::Parent => popped(before),
            c => before.push(c),
        }
    }
}

/// A path with its `.` and `..` resolved lexically and, when relative, anchored to the
/// working directory `cwd`: what is left to canonicalise when the path no longer
/// exists.
pub open spec fn lexical(path: Seq<char>, cwd: Seq<char>) -> Seq<Component> {
    let start = if path.len() > 0 && path[0] == '/' {
        seq![]
    } else {
        components_of(cwd)
    };
    walked(start, components_of(path))
}

/// How one component is written.
pub open spec fn component_text(c: Component) -> Seq<char> {
    match c {
        Component::Root => seq![],
        Component::Cur => "."@,
        Component::Parent => ".."@,
        Component::Normal(n) => n,
    }
}

/// Components written out as a path: the root as a leading `/`, the rest joined by `/`.
pub open spec fn rendered(c: Seq<Component>) -> Seq<char>
    decreases c.len(),
{
    if c.len() == 0 {
        seq![]
    } else if c.len() == 1 {
        if c[0] == Component::Root {
            "/"@
        } else {
            component_text(c[0])
        }
    } else {
        let head = rendered(c.drop_last());
        if head.len() > 0 && head.last() == '/' {
            head + component_text(c.last())
        } else {
            head + "/"@ + component_text(c.last())
        }
    }
}

fn push_comp(v: &mut Vec<Comp>, c: &Comp)
    ensures
        comps_view(final(v)@) == comps_view(old(v)@).push(c@),
{
    let ghost before = comps_view(v@);
    v.push(copy_comp(c));
    assert(comps_view(v@) =~= before.push(c@));
}

fn copy_comp(c: &Comp) -> (r: Comp)
    ensures
        r@ == c@,
{
    match c {
        Comp::Root => Comp::Root,
        Comp::Cur => Comp::Cur,
        Comp::Parent => Comp::Parent,
        Comp::Normal(n) => Comp::Normal(text::slice_of(n, 0, n.len())),
    }
}

/// A path with its `.` and `..` resolved lexically and, when relative, anchored to
/// `cwd`.
pub fn lexical_components(path: &str, cwd: &str) -> (r: Vec<Comp>)
    ensures
        comps_view(r@) == lexical(path@, cwd@),
{
    let pv = text::chars_of(path);
    let mut out: Vec<Comp> = if pv.len() > 0 && pv[0] == '/' {
        Vec::new()
    } else {
        components(cwd)
    };
    let ghost start = comps_view(out@);
    assert(start == if path@.len() > 0 && path@[0] == '/' {
        Seq::<Component>::empty()
    } else {
        components_of(cwd@)
    }) by {
        if pv@.len() > 0 && pv@[0] == '/' {
            assert(start =~= Seq::<Component>::empty());
        }
    }
    let comps = components(path);
    let ghost cv = comps_view(comps@);
    let mut i: usize = 0;
    while i < comps.len()
        invariant
            i <= comps@.len(),
            cv == comps_view(comps@),
            comps_view(out@) == walked(start, cv.take(i as int)),
        decreases comps@.len() - i,
    {
        assert(cv.take(i + 1).drop_last() == cv.take(i as int));
        assert(cv.take(i + 1).last() == comps@[i as int]@);
        let ghost before = comps_view(out@);
        match &comps[i] {
            Comp::Cur => {},
            Comp::Parent => {
                let only_root = out.len() == 1 && match &out[0] {
                    Comp::Root => true,
                    _ => false,
                };
                if out.len() > 0 && !only_root {
                    out.pop();
                    assert(comps_view(out@) =~= before.drop_last());
                }
                proof {
                    if before.len() == 1 && before[0] == Component::Root {
                        assert(before =~= seq![Component::Root]);
                    }
                    if before == seq![Component::Root] {
                        assert(before[0] == Component::Root);
                    }
                }
            },
            c => {
                out.push(copy_comp(c));
                assert(comps_view(out@) =~= before.push(comps@[i as int]@));
            },
        }
        i = i + 1;
    }
    assert(cv.take(i as int) == cv);
    out
}

/// Components written out as a path.
pub fn render(c: &Vec<Comp>) -> (r: String)
    ensures
        r@ == rendered(comps_view(c@)),
{
    let ghost cv = comps_view(c@);
    let mut out: Vec<char> = Vec::new();
    let mut i: usize = 0;
    while i < c.len()
        invariant
            i <= c@.len(),
            cv == comps_view(c@),
            out@ == rendered(cv.take(i as int)),
        decreases c@.len() - i,
    {
        assert(cv.take(i + 1).drop_last() == cv.take(i as int));
        assert(cv.take(i + 1).last() == c@[i as int]@);
        let ghost before = out@;
        if i == 0 {
            match &c[0] {
                Comp::Root => {
                    out.push('/');
                    assert(out@ =~= "/"@) by {
                        reveal_strlit("/");
                    }
                },
                _ => {},
            }
        } else if !(out.len() > 0 && out[out.len() - 1] == '/') {
            out.push('/');
        }
        match &c[i] {
            Comp::Root => {},
            Comp::Cur => text::push_str(&mut out, "."),
            Comp::Parent => text::push_str(&mut out, ".."),
            Comp::Normal(n) => text::push_all(&mut out, n),
        }
        proof {
            if i == 0 {
                assert(cv.take(1) =~= seq![cv[0]]);
                if cv[0] != Component::Root {
                    assert(out@ =~= component_text(cv[0]));
                }
            } else {
                if before.len() > 0 && before.last() == '/' {
                    assert(out@ =~= before + component_text(cv[i as int]));
                } else {
                    reveal_strlit("/");
                    assert(out@ =~= before + "/"@ + component_text(cv[i as int]));
                }
            }
        }
        i = i + 1;
    }
    assert(cv.take(i as int) == cv);
    text::string_of(&out)
}

/// The places to try canonicalising, longest first, each with what is left below it:
/// the whole resolved path, then each ancestor down to the root (or to the first
/// component of a relative path). The first that canonicalises is joined with its tail.
pub open spec fn ancestors_of(c: Seq<Component>) -> Seq<(Seq<char>, Seq<char>)> {
    Seq::new(c.len(), |k: int| (rendered(c.take(c.len() - k)), rendered(c.skip(c.len() - k))))
}

/// The places to try canonicalising, longest first, each with the tail below it.
pub fn ancestors(c: &Vec<Comp>) -> (r: Vec<(String, String)>)
    ensures
        r@.map_values(|p: (String, String)| (p.0@, p.1@)) == ancestors_of(comps_view(c@)),
{
    let ghost cv = comps_view(c@);
    let n = c.len();
    let mut out: Vec<(String, String)> = Vec::new();
    let mut k: usize = 0;
    while k < n
        invariant
            k <= n,
            n == c@.len(),
            cv == comps_view(c@),
            out@.map_values(|p: (String, String)| (p.0@, p.1@)) == ancestors_of(cv).take(k as int),
        decreases n - k,
    {
        let cut = n - k;
        let mut head: Vec<Comp> = Vec::new();
        let mut tail: Vec<Comp> = Vec::new();
        let mut m: usize = 0;
        while m < n
            invariant
                m <= n,
                n == c@.len(),
                cut <= n,
                cv == comps_view(c@),
                comps_view(head@) == cv.take(if m < cut { m as int } else { cut as int }),
                comps_view(tail@) == if m < cut { seq![] } else { cv.subrange(cut as int, m as int) },
            decreases n - m,
        {
            let ghost hb = comps_view(head@);
            let ghost tb = comps_view(tail@);
            if m < cut {
                push_comp(&mut head, &c[m]);
                assert(cv[m as int] == c@[m as int]@);
                assert(comps_view(head@) =~= cv.take(m + 1));
                if m + 1 == cut {
                    assert(cv.subrange(cut as int, cut as int) =~= Seq::<Component>::empty());
                }
            } else {
                push_comp(&mut tail, &c[m]);
                assert(cv[m as int] == c@[m as int]@);
                assert(comps_view(tail@) =~= cv.subrange(cut as int, m + 1));
            }
            m = m + 1;
        }
        if cut == n {
            assert(cv.subrange(cut as int, n as int) =~= Seq::<Component>::empty());
        }
        assert(cv.subrange(cut as int, n as int) =~= cv.skip(cut as int));
        assert(comps_view(head@) == cv.take(cut as int));
        assert(comps_view(tail@) == cv.skip(cut as int));
        let h = render(&head);
        let t = render(&tail);
        let ghost before = out@.map_values(|p: (String, String)| (p.0@, p.1@));
        assert(ancestors_of(cv)[k as int] == (rendered(cv.take(cut as int)), rendered(cv.skip(cut as int))));
        out.push((h, t));
        assert(out@.map_values(|p: (String, String)| (p.0@, p.1@)) =~= before.push((h@, t@)));
        assert(out@.map_values(|p: (String, String)| (p.0@, p.1@)) =~= ancestors_of(cv).take(k + 1));
        k = k + 1;
    }
    assert(ancestors_of(cv).take(n as int) =~= ancestors_of(cv));
    out
}

} // verus!
