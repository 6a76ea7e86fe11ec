//! Path text: joining components and reading them back.

use crate::text;
use vstd::prelude::*;
use vstd::slice::slice_subrange;

verus! {

/// A base path followed by one relative component.
pub open spec fn join_of(base: Seq<char>, component: Seq<char>) -> Seq<char> {
    if base.len() == 0 || base.last() == '/' {
        base + component
    } else {
        base + "/"@ + component
    }
}

/// Append one relative component to a base path.
pub fn join(base: &str, component: &str) -> (r: String)
    ensures
        r@ == join_of(base@, component@),
{
    let chars = text::chars_of(base);
    let mut out = base.to_owned();
    if !(chars.len() == 0 || chars[chars.len() - 1] == '/') {
        out.append("/");
    }
    out.append(component);
    out
}

/// Whether a normalized absolute path is a root or lies below it.
pub open spec fn contains_of(root: Seq<char>, path: Seq<char>) -> bool {
    path == root || join_of(root, seq![]).is_prefix_of(path)
}

/// Whether a normalized absolute path is a root or lies below it.
pub fn contains(root: &str, path: &str) -> (r: bool)
    ensures
        r == contains_of(root@, path@),
{
    let below = text::chars_of(join(root, "").as_str());
    let chars = text::chars_of(path);
    proof {
        reveal_strlit("");
        assert(""@ =~= Seq::<char>::empty());
    }
    text::same_text(root, path) || text::has_prefix(chars.as_slice(), below.as_slice())
}

/// A root contains itself and everything joined to it.
pub proof fn roots_contain_their_children(root: Seq<char>, component: Seq<char>)
    ensures
        contains_of(root, root),
        contains_of(root, join_of(root, component)),
{
    let below = join_of(root, seq![]);
    let child = join_of(root, component);
    assert(below =~= child.subrange(0, below.len() as int));
}

// ---------------------------------------------------------------------------
// Components

/// A path without trailing separators and trailing `.` components.
pub open spec fn trimmed_of(path: Seq<char>) -> Seq<char>
    decreases path.len(),
{
    let n = path.len() as int;
    if n >= 2 && (path[n - 1] == '/' || (path[n - 1] == '.' && path[n - 2] == '/')) {
        trimmed_of(path.drop_last())
    } else {
        path
    }
}

/// The position behind the last separator, 0 if there is none.
pub open spec fn last_start(path: Seq<char>) -> int
    decreases path.len(),
{
    if path.len() == 0 || path.last() == '/' {
        path.len() as int
    } else {
        last_start(path.drop_last())
    }
}

/// The last component, unless the path ends in the root or in `..`.
pub open spec fn file_name_of(path: Seq<char>) -> Option<Seq<char>> {
    let t = trimmed_of(path);
    let name = t.skip(last_start(t));
    if name.len() == 0 || name == "."@ || name == ".."@ {
        None
    } else {
        Some(name)
    }
}

/// Everything before the last component; the root and the empty path have no
/// parent.
pub open spec fn parent_of(path: Seq<char>) -> Option<Seq<char>> {
    let t = trimmed_of(path);
    let at = last_start(t);
    if at == t.len() {
        None
    } else {
        Some(trimmed_of(t.take(at)))
    }
}

proof fn lemma_last_start(path: Seq<char>)
    ensures
        0 <= last_start(path) <= path.len(),
    decreases path.len(),
{
    if path.len() > 0 {
        lemma_last_start(path.drop_last());
    }
}

/// Drop trailing separators and trailing `.` components.
fn trimmed(path: &[char]) -> (r: &[char])
    ensures
        r@ == trimmed_of(path@),
{
    let mut n: usize = path.len();
    assert(path@.take(n as int) =~= path@);
    while n >= 2 && (path[n - 1] == '/' || (path[n - 1] == '.' && path[n - 2] == '/'))
        invariant
            n <= path@.len(),
            trimmed_of(path@) == trimmed_of(path@.take(n as int)),
        decreases n,
    {
        assert(path@.take(n as int).drop_last() =~= path@.take(n - 1));
        n = n - 1;
    }
    let r = slice_subrange(path, 0, n);
    assert(r@ =~= path@.take(n as int));
    r
}

fn behind_last_separator(path: &[char]) -> (r: usize)
    ensures
        r == last_start(path@),
{
    let mut n: usize = path.len();
    assert(path@.take(n as int) =~= path@);
    while n > 0 && path[n - 1] != '/'
        invariant
            n <= path@.len(),
            last_start(path@) == last_start(path@.take(n as int)),
        decreases n,
    {
        assert(path@.take(n as int).drop_last() =~= path@.take(n - 1));
        n = n - 1;
    }
    n
}

/// The last component, unless the path ends in the root or in `..`.
pub fn file_name(path: &str) -> (r: Option<String>)
    ensures
        text::optional(r) == file_name_of(path@),
{
    let chars = text::chars_of(path);
    let t = trimmed(chars.as_slice());
    let at = behind_last_separator(t);
    proof {
        lemma_last_start(t@);
        assert(t@.subrange(at as int, t@.len() as int) =~= t@.skip(at as int));
    }
    let name = text::string_of(slice_subrange(t, at, t.len()));
    if at == t.len() || text::same_text(name.as_str(), ".") || text::same_text(
        name.as_str(),
        "..",
    ) {
        None
    } else {
        Some(name)
    }
}

/// Everything before the last component; the root and the empty path have no
/// parent.
pub fn parent(path: &str) -> (r: Option<String>)
    ensures
        text::optional(r) == parent_of(path@),
{
    let chars = text::chars_of(path);
    let t = trimmed(chars.as_slice());
    let at = behind_last_separator(t);
    if at == t.len() {
        None
    } else {
        proof {
            lemma_last_start(t@);
            assert(t@.subrange(0, at as int) =~= t@.take(at as int));
        }
        Some(text::string_of(trimmed(slice_subrange(t, 0, at))))
    }
}

/// The parts that are components: neither empty nor `.`.
pub open spec fn kept(parts: Seq<Seq<char>>) -> Seq<Seq<char>>
    decreases parts.len(),
{
    if parts.len() == 0 {
        seq![]
    } else {
        let rest = kept(parts.drop_last());
        if parts.last().len() == 0 || parts.last() == "."@ {
            rest
        } else {
            rest.push(parts.last())
        }
    }
}

/// What a path begins with: the root, the current directory written out, or
/// neither.
pub open spec fn lead_of(path: Seq<char>) -> Seq<Seq<char>> {
    if path.len() > 0 && path[0] == '/' {
        seq![path.take(1)]
    } else if path.len() > 0 && path[0] == '.' && (path.len() == 1 || path[1] == '/') {
        seq![path.take(1)]
    } else {
        seq![]
    }
}

/// The components of a path. A `.` counts only in front.
pub open spec fn components_of(path: Seq<char>) -> Seq<Seq<char>> {
    lead_of(path) + kept(text::split_of(path, '/'))
}

/// Whether a path is a base or lies below it, component by component.
pub open spec fn starts_with_of(path: Seq<char>, base: Seq<char>) -> bool {
    components_of(base).is_prefix_of(components_of(path))
}

fn components(path: &[char]) -> (r: Vec<&[char]>)
    ensures
        text::slices(r@) == components_of(path@),
{
    let parts = text::split(path, '/');
    let ghost all = text::slices(parts@);
    let dot = text::chars_of(".");
    let ghost lead = lead_of(path@);
    let mut out: Vec<&[char]> = Vec::new();
    if path.len() > 0 && (path[0] == '/' || (path[0] == '.' && (path.len() == 1 || path[1]
        == '/'))) {
        let first = slice_subrange(path, 0, 1);
        assert(first@ =~= path@.take(1));
        out.push(first);
    }
    assert(text::slices(out@) =~= lead);
    let mut i: usize = 0;
    assert(lead + kept(all.take(0)) =~= lead);
    while i < parts.len()
        invariant
            i <= parts@.len(),
            dot@ == "."@,
            all == text::slices(parts@),
            text::slices(out@) == lead + kept(all.take(i as int)),
        decreases parts@.len() - i,
    {
        let part = parts[i];
        proof {
            assert(all.take(i + 1).drop_last() =~= all.take(i as int));
            assert(all.take(i + 1).last() == part@);
            assert(text::slices(out@.push(part)) =~= text::slices(out@).push(part@));
            let grown = kept(all.take(i as int));
            assert((lead + grown).push(part@) =~= lead + grown.push(part@));
        }
        if !(part.len() == 0 || text::same_chars(part, dot.as_slice())) {
            out.push(part);
        }
        i = i + 1;
    }
    assert(all.take(all.len() as int) =~= all);
    out
}

/// Whether a path is a base or lies below it, component by component.
pub fn starts_with(path: &str, base: &str) -> (r: bool)
    ensures
        r == starts_with_of(path@, base@),
{
    let p = text::chars_of(path);
    let b = text::chars_of(base);
    let whole = components(p.as_slice());
    let lead = components(b.as_slice());
    let ghost x = text::slices(whole@);
    let ghost y = text::slices(lead@);
    if lead.len() > whole.len() {
        return false;
    }
    let mut i: usize = 0;
    while i < lead.len()
        invariant
            i <= lead@.len() <= whole@.len(),
            x == text::slices(whole@),
            y == text::slices(lead@),
            x == components_of(path@),
            y == components_of(base@),
            forall|k: int| 0 <= k < i ==> #[trigger] y[k] == x[k],
        decreases lead@.len() - i,
    {
        if !text::same_chars(lead[i], whole[i]) {
            proof {
                assert(y[i as int] != x[i as int]);
                if y.is_prefix_of(x) {
                    assert(y[i as int] == x.subrange(0, y.len() as int)[i as int]);
                }
            }
            return false;
        }
        assert(y[i as int] == x[i as int]);
        i = i + 1;
    }
    assert(y =~= x.subrange(0, y.len() as int));
    true
}

// ---------------------------------------------------------------------------
// Order

/// Order of characters in paths: the separator comes first, so that paths
/// compare component by component.
pub open spec fn ranks(a: char, b: char) -> bool {
    b != '/' && (a == '/' || a < b)
}

/// Component-wise order of normalized absolute paths.
pub open spec fn before(a: Seq<char>, b: Seq<char>) -> bool
    decreases a.len(),
{
    if b.len() == 0 {
        false
    } else if a.len() == 0 {
        true
    } else {
        ranks(a[0], b[0]) || (a[0] == b[0] && before(a.skip(1), b.skip(1)))
    }
}

/// The order is irreflexive, transitive, and total.
pub proof fn lemma_before(a: Seq<char>, b: Seq<char>, c: Seq<char>)
    ensures
        !before(a, a),
        before(a, b) && before(b, c) ==> before(a, c),
        before(a, b) || before(b, a) || a == b,
        !(before(a, b) && before(b, a)),
    decreases a.len(),
{
    if a.len() > 0 {
        let rest_b = if b.len() > 0 { b.skip(1) } else { b };
        let rest_c = if c.len() > 0 { c.skip(1) } else { c };
        lemma_before(a.skip(1), rest_b, rest_c);
        if b.len() > 0 && a[0] == b[0] && a.skip(1) == b.skip(1) {
            assert(a =~= seq![a[0]] + a.skip(1));
            assert(b =~= seq![b[0]] + b.skip(1));
        }
    } else if b.len() == 0 {
        assert(a =~= b);
    }
}

fn ranks_before(a: char, b: char) -> (r: bool)
    ensures
        r == ranks(a, b),
{
    b != '/' && (a == '/' || a < b)
}

/// Whether `a` comes before `b`.
pub fn is_before(a: &str, b: &str) -> (r: bool)
    ensures
        r == before(a@, b@),
{
    let x = text::chars_of(a);
    let y = text::chars_of(b);
    let mut i: usize = 0;
    proof {
        assert(x@.skip(0) =~= x@);
        assert(y@.skip(0) =~= y@);
    }
    while i < x.len() && i < y.len() && x[i] == y[i]
        invariant
            i <= x@.len(),
            i <= y@.len(),
            x@ == a@,
            y@ == b@,
            before(a@, b@) == before(x@.skip(i as int), y@.skip(i as int)),
        decreases x@.len() - i,
    {
        proof {
            assert(x@.skip(i as int).skip(1) =~= x@.skip(i + 1));
            assert(y@.skip(i as int).skip(1) =~= y@.skip(i + 1));
        }
        i = i + 1;
    }
    if i >= y.len() {
        false
    } else if i >= x.len() {
        true
    } else {
        ranks_before(x[i], y[i])
    }
}

/// Paths in increasing order, none twice.
pub open spec fn is_sorted(list: Seq<Seq<char>>) -> bool {
    forall|i: int, j: int|
        0 <= i < j < list.len() ==> before(#[trigger] list[i], #[trigger] list[j])
}

/// Sorted paths that hold exactly the given members.
pub open spec fn sorts(list: Seq<Seq<char>>, members: Set<Seq<char>>) -> bool {
    &&& is_sorted(list)
    &&& forall|path: Seq<char>| #[trigger] list.contains(path) <==> members.contains(path)
}

/// Insert a path into a sorted list; a path that is there stays there once.
pub fn insert_sorted(list: &mut Vec<String>, path: String)
    requires
        is_sorted(text::texts(old(list)@)),
    ensures
        is_sorted(text::texts(final(list)@)),
        forall|p: Seq<char>|
            #[trigger] text::texts(final(list)@).contains(p) <==> p == path@ || text::texts(
                old(list)@,
            ).contains(p),
{
    let ghost before_list = text::texts(list@);
    let ghost start = list@;
    let ghost added = path@;
    let mut at: usize = 0;
    while at < list.len() && is_before(list[at].as_str(), path.as_str())
        invariant
            at <= list@.len(),
            list@ == start,
            path@ == added,
            before_list == text::texts(start),
            forall|k: int| 0 <= k < at ==> before(#[trigger] before_list[k], added),
        decreases list@.len() - at,
    {
        assert(before_list[at as int] == list@[at as int]@);
        at = at + 1;
    }
    if at < list.len() && text::same_text(list[at].as_str(), path.as_str()) {
        assert(before_list[at as int] == added);
        return;
    }
    proof {
        if at < list@.len() {
            assert(before_list[at as int] == list@[at as int]@);
            lemma_before(before_list[at as int], added, added);
        }
    }
    list.insert(at, path);
    proof {
        let after = text::texts(list@);
        assert(after =~= before_list.insert(at as int, added));
        assert forall|i: int, j: int| 0 <= i < j < after.len() implies before(
            #[trigger] after[i],
            #[trigger] after[j],
        ) by {
            let oi = if i < at { i } else { i - 1 };
            let oj = if j < at { j } else { j - 1 };
            if i == at {
                assert(after[j] == before_list[oj]);
                lemma_before(added, before_list[at as int], before_list[oj]);
                if oj > at {
                    assert(before(before_list[at as int], before_list[oj]));
                }
            } else if j == at {
                assert(after[i] == before_list[oi]);
            } else {
                assert(after[i] == before_list[oi]);
                assert(after[j] == before_list[oj]);
            }
        }
        assert forall|p: Seq<char>| #[trigger] after.contains(p) <==> p == added
            || before_list.contains(p) by {
            assert(after[at as int] == added);
            if after.contains(p) {
                let k = choose|k: int| 0 <= k < after.len() && after[k] == p;
                if k != at {
                    let ok = if k < at { k } else { k - 1 };
                    assert(before_list[ok] == p);
                }
            }
            if before_list.contains(p) {
                let k = choose|k: int| 0 <= k < before_list.len() && before_list[k] == p;
                let nk = if k < at { k } else { k + 1 };
                assert(after[nk] == p);
            }
        }
    }
}

/// Members determine their sorted list.
pub proof fn sorting_is_unique(a: Seq<Seq<char>>, b: Seq<Seq<char>>, members: Set<Seq<char>>)
    requires
        sorts(a, members),
        sorts(b, members),
    ensures
        a == b,
    decreases a.len(),
{
    if a.len() == 0 {
        if b.len() > 0 {
            assert(b.contains(b[0]));
            assert(a.contains(b[0]));
        }
        assert(a =~= b);
    } else {
        assert(a.contains(a.last()));
        assert(b.contains(a.last()));
        let k = choose|k: int| 0 <= k < b.len() && b[k] == a.last();
        assert(b.contains(b.last()));
        assert(a.contains(b.last()));
        let m = choose|m: int| 0 <= m < a.len() && a[m] == b.last();
        lemma_before(a.last(), b.last(), a.last());
        if m < a.len() - 1 {
            assert(before(a[m], a[a.len() - 1]));
            if k < b.len() - 1 {
                assert(before(b[k], b[b.len() - 1]));
            }
        }
        assert(a.last() == b.last());
        let rest = members.remove(a.last());
        let a0 = a.drop_last();
        let b0 = b.drop_last();
        assert forall|path: Seq<char>| #[trigger] a0.contains(path) <==> rest.contains(path) by {
            lemma_drop_last(a, path);
            assert(a.contains(path) <==> members.contains(path));
        }
        assert forall|path: Seq<char>| #[trigger] b0.contains(path) <==> rest.contains(path) by {
            lemma_drop_last(b, path);
            assert(b.contains(path) <==> members.contains(path));
        }
        sorting_is_unique(a0, b0, rest);
        assert(a =~= a0.push(a.last()));
        assert(b =~= b0.push(b.last()));
    }
}

proof fn lemma_drop_last(list: Seq<Seq<char>>, path: Seq<char>)
    requires
        is_sorted(list),
        list.len() > 0,
    ensures
        list.drop_last().contains(path) <==> list.contains(path) && path != list.last(),
{
    let short = list.drop_last();
    if short.contains(path) {
        let k = choose|k: int| 0 <= k < short.len() && short[k] == path;
        assert(list[k] == path);
        lemma_before(path, path, path);
        assert(before(list[k], list[list.len() - 1]));
    }
    if list.contains(path) && path != list.last() {
        let k = choose|k: int| 0 <= k < list.len() && list[k] == path;
        assert(short[k] == path);
    }
}

// ---------------------------------------------------------------------------
// Laws

/// A path component: a name that is not empty, holds no separator, and is none
/// of the two dot names.
pub open spec fn is_component(name: Seq<char>) -> bool {
    &&& name.len() > 0
    &&& !name.contains('/')
    &&& name != "."@
    &&& name != ".."@
}

proof fn lemma_last_start_at(base: Seq<char>, name: Seq<char>)
    requires
        !name.contains('/'),
        base.len() > 0 ==> base.last() == '/',
    ensures
        last_start(base + name) == base.len(),
    decreases name.len(),
{
    if name.len() == 0 {
        assert(base + name =~= base);
    } else {
        let short = name.drop_last();
        assert((base + name).drop_last() =~= base + short);
        assert((base + name).last() == name.last());
        assert(name.contains(name[name.len() - 1]));
        if short.contains('/') {
            let k = choose|k: int| 0 <= k < short.len() && short[k] == '/';
            assert(name[k] == '/');
        }
        lemma_last_start_at(base, short);
    }
}

/// Joining is undone by taking the name and the parent: the name of a joined
/// path is what was joined, and its parent is where it was joined.
pub proof fn joined_paths_come_apart(base: Seq<char>, name: Seq<char>)
    requires
        is_component(name),
    ensures
        file_name_of(join_of(base, name)) == Some(name),
        base.len() > 0 ==> parent_of(join_of(base, name)) == Some(trimmed_of(base)),
        base.len() == 0 ==> parent_of(join_of(base, name)) == Some(base),
{
    let path = join_of(base, name);
    let n = path.len() as int;
    let m = name.len() as int;
    reveal_strlit("/");
    reveal_strlit(".");
    let root = path.take(n - m);
    let slashed = if base.len() == 0 || base.last() == '/' {
        base
    } else {
        base + "/"@
    };
    assert(path =~= slashed + name);
    assert(root =~= slashed);
    assert(path[n - 1] == name[m - 1]);
    assert(name.contains(name[m - 1]));
    if m >= 2 {
        assert(path[n - 2] == name[m - 2]);
        assert(name.contains(name[m - 2]));
    } else {
        if name[0] == '.' {
            assert(name =~= "."@);
        }
    }
    assert(trimmed_of(path) == path);
    lemma_last_start_at(slashed, name);
    assert(path.skip(n - m) =~= name);
    if slashed.len() > base.len() {
        assert(slashed.drop_last() =~= base);
        assert(slashed.last() == '/');
        assert(trimmed_of(slashed) == trimmed_of(base));
    }
    if base.len() == 0 {
        assert(slashed =~= base);
    }
}

/// A root contains itself and what lies below it, and no sibling whose name
/// merely starts like it.
pub proof fn roots_contain_nothing_beside_them(root: Seq<char>, path: Seq<char>, tail: Seq<char>)
    requires
        root.len() > 0,
        root.last() != '/',
    ensures
        contains_of(root, path) ==> root.is_prefix_of(path),
        contains_of(root, root + tail) <==> tail.len() == 0 || tail[0] == '/',
{
    let slashed = join_of(root, seq![]);
    reveal_strlit("/");
    assert(slashed =~= root.push('/'));
    if slashed.is_prefix_of(path) {
        assert(path.subrange(0, root.len() as int) =~= root) by {
            assert(path.subrange(0, slashed.len() as int) == slashed);
            assert forall|k: int| 0 <= k < root.len() implies path[k] == root[k] by {
                assert(path.subrange(0, slashed.len() as int)[k] == slashed[k]);
            }
        }
    }
    let long = root + tail;
    if tail.len() == 0 {
        assert(long =~= root);
    } else {
        assert(long.len() != root.len());
        assert(long[root.len() as int] == tail[0]);
        if tail[0] == '/' {
            assert(long.subrange(0, slashed.len() as int) =~= slashed);
        }
        if slashed.is_prefix_of(long) {
            assert(long.subrange(0, slashed.len() as int)[root.len() as int] == '/');
        }
    }
}

proof fn lemma_kept(left: Seq<Seq<char>>, right: Seq<Seq<char>>)
    ensures
        kept(left + right) == kept(left) + kept(right),
    decreases right.len(),
{
    if right.len() == 0 {
        assert(left + right =~= left);
        assert(kept(left) + kept(right) =~= kept(left));
    } else {
        let last = right.last();
        assert((left + right).drop_last() =~= left + right.drop_last());
        lemma_kept(left, right.drop_last());
        let rest = kept(right.drop_last());
        assert(kept(left) + rest.push(last) =~= (kept(left) + rest).push(last));
    }
}

/// The components of a path are those of its start followed by those of the
/// rest, so a path starts with every path above it. Empty and dot components do
/// not count, and a name is a component of its own.
pub proof fn components_add_up(base: Seq<char>, rest: Seq<char>, name: Seq<char>)
    requires
        base.len() > 0,
        is_component(name) || name == ".."@,
    ensures
        components_of(base + seq!['/'] + rest) == components_of(base) + kept(
            text::split_of(rest, '/'),
        ),
        starts_with_of(base + seq!['/'] + rest, base),
        kept(text::split_of(name, '/')) == seq![name],
        kept(text::split_of("."@, '/')).len() == 0,
        kept(text::split_of(""@, '/')).len() == 0,
{
    let path = base + seq!['/'] + rest;
    text::separators_split_parts(base, '/', rest);
    lemma_kept(text::split_of(base, '/'), text::split_of(rest, '/'));
    assert(path[0] == base[0]);
    if base.len() > 1 {
        assert(path[1] == base[1]);
    } else {
        assert(path[1] == '/');
    }
    assert(path.take(1) =~= base.take(1));
    assert(lead_of(path) =~= lead_of(base));
    let above = components_of(base);
    let below = kept(text::split_of(rest, '/'));
    assert(components_of(path) =~= above + below);
    assert((above + below).subrange(0, above.len() as int) =~= above);
    reveal_strlit(".");
    reveal_strlit("..");
    reveal_strlit("");
    lemma_kept_word(name);
    lemma_kept_word("."@);
    lemma_kept_word(""@);
}

proof fn lemma_kept_word(word: Seq<char>)
    requires
        !word.contains('/'),
    ensures
        kept(text::split_of(word, '/')) == (if word.len() == 0 || word == "."@ {
            Seq::<Seq<char>>::empty()
        } else {
            seq![word]
        }),
{
    text::separators_split_parts(word, '/', word);
    let parts = seq![word];
    assert(parts.drop_last() =~= Seq::<Seq<char>>::empty());
    assert(kept(parts.drop_last()) =~= Seq::<Seq<char>>::empty());
    assert(Seq::<Seq<char>>::empty().push(word) =~= parts);
}

/// Paths are ordered component by component: the separator comes before every
/// other character, so a directory comes right before what lies below it.
pub proof fn separators_come_first(
    start: Seq<char>,
    below: Seq<char>,
    c: char,
    other: Seq<char>,
)
    requires
        c != '/',
    ensures
        before(start, start + seq!['/'] + below),
        before(start + seq!['/'] + below, start + seq![c] + other),
        forall|d: char|
            d != '/' ==> (#[trigger] before(start + seq![c] + below, start + seq![d] + other)
                <==> c < d || (c == d && before(below, other))),
    decreases start.len(),
{
    let a = start + seq!['/'] + below;
    let b = start + seq![c] + other;
    let e = start + seq![c] + below;
    if start.len() > 0 {
        separators_come_first(start.skip(1), below, c, other);
        assert(a.skip(1) =~= start.skip(1) + seq!['/'] + below);
        assert(b.skip(1) =~= start.skip(1) + seq![c] + other);
        assert(e.skip(1) =~= start.skip(1) + seq![c] + below);
        assert forall|d: char| d != '/' implies (#[trigger] before(
            e,
            start + seq![d] + other,
        ) <==> c < d || (c == d && before(below, other))) by {
            assert((start + seq![d] + other).skip(1) =~= start.skip(1) + seq![d] + other);
            assert(before(e, start + seq![d] + other) == before(
                start.skip(1) + seq![c] + below,
                start.skip(1) + seq![d] + other,
            ));
        }
    } else {
        assert(e.skip(1) =~= below);
        assert forall|d: char| d != '/' implies (#[trigger] before(
            e,
            start + seq![d] + other,
        ) <==> c < d || (c == d && before(below, other))) by {
            assert((start + seq![d] + other).skip(1) =~= other);
        }
    }
}

/// Trimming takes trailing separators and trailing current-directory components
/// off, and nothing else; a path that ends in a dot name has no file name.
pub proof fn trimming_takes_empty_components(base: Seq<char>)
    requires
        base.len() > 0,
    ensures
        trimmed_of(base + seq!['/']) == trimmed_of(base),
        trimmed_of(base + seq!['/', '.']) == trimmed_of(base),
        base.last() != '/' && base.last() != '.' ==> trimmed_of(base) == base,
        file_name_of(base + seq!['/', '.', '.']) is None,
        base == seq!['/'] ==> trimmed_of(base) == base && file_name_of(base) is None && parent_of(
            base,
        ) is None,
{
    let slashed = base + seq!['/'];
    let dotted = base + seq!['/', '.'];
    assert(slashed.drop_last() =~= base);
    assert(dotted.drop_last() =~= slashed);
    let up = base + seq!['/', '.', '.'];
    let n = up.len() as int;
    assert(up[n - 1] == '.' && up[n - 2] == '.');
    reveal_strlit("..");
    lemma_last_start_at(slashed, ".."@);
    assert(slashed + ".."@ =~= up);
    assert(up.skip(slashed.len() as int) =~= ".."@);
    if base == seq!['/'] {
        assert(last_start(base) == 1);
        assert(base.skip(1).len() == 0);
    }
}

} // verus!
