//! File paths as text.

use crate::text;
use vstd::prelude::*;

verus! {

/// The path of `name` below `base`.
pub open spec fn below(base: Seq<char>, name: Seq<char>) -> Seq<char> {
    if base.len() == 0 || base.last() == '/' {
        base + name
    } else {
        base.push('/') + name
    }
}

/// The path of the relative `name` below `base`.
pub fn join(base: &str, name: &str) -> (r: String)
    ensures
        r@ == below(base@, name@),
{
    let v = text::chars_of(base);
    let mut r = text::copy(base);
    if v.len() > 0 && v[v.len() - 1] != '/' {
        r.push('/');
    }
    r.append(name);
    r
}

/// A path without slashes and lone points at its end. The root stays.
pub open spec fn without_tail(s: Seq<char>) -> Seq<char>
    decreases s.len(),
{
    if s.len() > 1 && s.last() == '/' {
        without_tail(s.drop_last())
    } else if s.len() > 1 && s.last() == '.' && s[s.len() - 2] == '/' {
        without_tail(s.drop_last())
    } else {
        s
    }
}

/// Whether the last slash stands at `i`.
pub open spec fn last_slash(s: Seq<char>, i: int) -> bool {
    0 <= i < s.len() && s[i] == '/' && forall|j: int| i < j < s.len() ==> s[j] != '/'
}

/// The directory that holds a path: what stands before its last name. The root
/// and the empty path have none.
pub open spec fn parent_of(s: Seq<char>) -> Option<Seq<char>> {
    let t = without_tail(s);
    if t.len() == 0 || t == seq!['/'] {
        None
    } else if exists|i: int| last_slash(t, i) {
        let i = choose|i: int| last_slash(t, i);
        Some(without_tail(t.take(i + 1)))
    } else {
        Some(Seq::empty())
    }
}

fn tail_start(v: &Vec<char>, to: usize) -> (r: usize)
    requires
        to <= v@.len(),
    ensures
        r <= to,
        v@.take(r as int) == without_tail(v@.take(to as int)),
{
    let mut n: usize = to;
    while n > 1 && (v[n - 1] == '/' || (v[n - 1] == '.' && v[n - 2] == '/'))
        invariant
            n <= to <= v@.len(),
            without_tail(v@.take(n as int)) == without_tail(v@.take(to as int)),
        decreases n,
    {
        assert(v@.take(n as int).drop_last() =~= v@.take(n - 1));
        n -= 1;
    }
    n
}

/// The directory that holds a path.
pub fn parent(s: &str) -> (r: Option<String>)
    ensures
        r.deep_view() == parent_of(s@),
{
    let v = text::chars_of(s);
    let n = tail_start(&v, v.len());
    let ghost t = without_tail(s@);
    assert(v@.take(v@.len() as int) =~= v@);
    assert(v@.take(n as int) == t);
    if n == 0 {
        return None;
    }
    if n == 1 && v[0] == '/' {
        assert(t =~= seq!['/']);
        return None;
    }
    assert(t != seq!['/']) by {
        if t == seq!['/'] {
            assert(t[0] == '/' && t.len() == 1);
        }
    }
    let mut i: usize = n;
    while i > 0
        invariant
            i <= n <= v@.len(),
            t == v@.take(n as int),
            t == without_tail(s@),
            t.len() > 0,
            t != seq!['/'],
            forall|j: int| i <= j < n ==> v@[j] != '/',
        decreases i,
    {
        i -= 1;
        if v[i] == '/' {
            assert(last_slash(t, i as int));
            let ghost k = choose|k: int| last_slash(t, k);
            assert(last_slash(t, k) && k == i);
            let m = tail_start(&v, i + 1);
            assert(t.take(i + 1) =~= v@.take(i + 1));
            let r = text::text_range(&v, 0, m);
            assert(r@ =~= v@.take(m as int));
            return Some(r);
        }
    }
    assert forall|k: int| !last_slash(t, k) by {}
    let none = String::new();
    assert(none@ =~= Seq::<char>::empty());
    Some(none)
}

/// The directory of a name below a directory is that directory.
pub proof fn law_parent_of_below(dir: Seq<char>, name: Seq<char>)
    requires
        dir.len() > 0,
        without_tail(dir) == dir,
        dir.last() != '/',
        name.len() > 0,
        !name.contains('/'),
        name != seq!['.'],
    ensures
        parent_of(below(dir, name)) == Some(dir),
{
    let p = below(dir, name);
    assert(p =~= dir.push('/') + name);
    assert(p.last() == name.last());
    assert(name.contains(name.last()));
    if name.len() == 1 {
        if name[0] == '.' {
            assert(name =~= seq!['.']);
        }
    } else {
        assert(p[p.len() - 2] == name[name.len() - 2]);
        assert(name.contains(name[name.len() - 2]));
    }
    assert(without_tail(p) == p);
    let k = dir.len() as int;
    assert(p[k] == '/');
    assert forall|j: int| k < j < p.len() implies p[j] != '/' by {
        assert(p[j] == name[j - k - 1]);
        assert(name.contains(name[j - k - 1]));
    }
    assert(last_slash(p, k));
    let i = choose|i: int| last_slash(p, i);
    assert(last_slash(p, i) && i == k);
    assert(p.take(k + 1) =~= dir.push('/'));
    assert(dir.push('/').drop_last() =~= dir);
    assert(without_tail(dir.push('/')) == without_tail(dir));
}

/// A name below a directory stands behind it and one slash.
pub proof fn law_below(base: Seq<char>, name: Seq<char>)
    ensures
        base.len() > 0 && base.last() != '/' ==> below(base, name) == base + seq!['/'] + name,
        base.len() > 0 && base.last() == '/' ==> below(base, name) == base + name,
        base.len() == 0 ==> below(base, name) == name,
{
    if base.len() > 0 && base.last() != '/' {
        assert(below(base, name) =~= base + seq!['/'] + name);
    }
    if base.len() == 0 {
        assert(below(base, name) =~= name);
    }
}

/// A name alone lies in the current directory, written as the empty path; a name
/// below the root lies in the root; the root and the empty path lie nowhere.
pub proof fn law_parents(name: Seq<char>)
    requires
        name.len() > 0,
        !name.contains('/'),
        name != seq!['.'],
    ensures
        parent_of(name) == Some(Seq::<char>::empty()),
        parent_of(seq!['/'] + name) == Some(seq!['/']),
        parent_of(seq!['/']) is None,
        parent_of(Seq::empty()) is None,
{
    assert(name.contains(name.last()));
    if name.len() > 1 {
        assert(name.contains(name[name.len() - 2]));
    }
    assert(without_tail(name) == name);
    assert forall|i: int| !last_slash(name, i) by {
        if 0 <= i < name.len() {
            assert(name.contains(name[i]));
        }
    }
    if name == seq!['/'] {
        assert(name.contains(name[0]));
    }
    let p = seq!['/'] + name;
    assert(p.last() == name.last());
    if name.len() == 1 {
        if name[0] == '.' {
            assert(name =~= seq!['.']);
        }
    } else {
        assert(p[p.len() - 2] == name[name.len() - 2]);
    }
    assert(without_tail(p) == p);
    assert forall|j: int| 0 < j < p.len() implies p[j] != '/' by {
        assert(p[j] == name[j - 1]);
        assert(name.contains(name[j - 1]));
    }
    assert(p[0] == '/');
    assert(last_slash(p, 0));
    let i = choose|i: int| last_slash(p, i);
    assert(last_slash(p, i) && i == 0);
    assert(p.take(1) =~= seq!['/']);
    assert(without_tail(seq!['/']) == seq!['/']);
}

} // verus!
