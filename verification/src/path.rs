//! Paths, told apart by their components rather than by their letters.

use vstd::prelude::*;
use crate::text;
use crate::text::{chars_of, same_chars, split};

verus! {

/// The stretches of a path between its separators, empty ones too.
pub open spec fn segments(path: Seq<char>) -> Seq<Seq<char>> {
    text::pieces(path, '/')
}

/// A segment that names something: not empty, and not `.`.
pub open spec fn is_naming(segment: Seq<char>) -> bool {
    segment.len() > 0 && segment != seq!['.']
}

/// The names along a path: repeated separators, a separator at the end and `.`
/// add none.
pub open spec fn names(path: Seq<char>) -> Seq<Seq<char>> {
    segments(path).filter(|s: Seq<char>| is_naming(s))
}

/// A relative path that is written from `.` on.
pub open spec fn from_here(path: Seq<char>) -> bool {
    !text::is_absolute(path) && segments(path)[0] == seq!['.']
}

/// The two paths have the same components.
pub open spec fn same_path(a: Seq<char>, b: Seq<char>) -> bool {
    &&& text::is_absolute(a) == text::is_absolute(b)
    &&& from_here(a) == from_here(b)
    &&& names(a) == names(b)
}

fn naming(v: &Vec<char>) -> (r: bool)
    ensures
        r == is_naming(v@),
{
    if v.len() == 1 && v[0] == '.' {
        assert(v@ =~= seq!['.']);
        false
    } else {
        assert(v@ != seq!['.']) by {
            if v@ == seq!['.'] {
                assert(v@[0] == '.');
            }
        }
        v.len() > 0
    }
}

/// The names along a path, and whether it is written from `.` on.
fn components(path: &str) -> (r: (Vec<Vec<char>>, bool))
    ensures
        text::runs(r.0@) == names(path@),
        r.1 == from_here(path@),
{
    let chars = chars_of(path);
    let parts = split(&chars, 0, '/');
    assert(chars@.skip(0) =~= path@);
    let ghost all = segments(path@);
    let here = !text::absolute(path) && parts[0].len() == 1 && parts[0][0] == '.';
    assert((parts@[0]@.len() == 1 && parts@[0]@[0] == '.') == (all[0] == seq!['.'])) by {
        assert(all[0] == parts@[0]@);
        if parts@[0]@.len() == 1 && parts@[0]@[0] == '.' {
            assert(parts@[0]@ =~= seq!['.']);
        } else if all[0] == seq!['.'] {
            assert(all[0][0] == '.');
        }
    }
    let mut out: Vec<Vec<char>> = Vec::new();
    assert(all.take(0).filter(|s: Seq<char>| is_naming(s)) =~= Seq::<Seq<char>>::empty()) by {
        reveal(Seq::filter);
    }
    for part in it: parts
        invariant
            text::runs(it.seq()) == all,
            text::runs(out@) == all.take(it.index() as int).filter(|s: Seq<char>| is_naming(s)),
    {
        let ghost k = it.index() as int;
        assert(all[k] == part@);
        assert(all.take(k + 1) =~= all.take(k).push(all[k]));
        proof {
            all.take(k).lemma_filter_push(all[k], |s: Seq<char>| is_naming(s));
        }
        if naming(&part) {
            let ghost held = out@;
            out.push(part);
            assert(text::runs(out@) =~= text::runs(held).push(all[k]));
        }
    }
    assert(all.take(all.len() as int) =~= all);
    (out, here)
}

/// Whether two paths have the same components.
pub fn paths_match(a: &str, b: &str) -> (r: bool)
    ensures
        r == same_path(a@, b@),
{
    let (x, h) = components(a);
    let (y, k) = components(b);
    if text::absolute(a) != text::absolute(b) || h != k {
        return false;
    }
    if x.len() != y.len() {
        assert(text::runs(x@).len() != text::runs(y@).len());
        return false;
    }
    let mut i: usize = 0;
    while i < x.len()
        invariant
            i <= x@.len() == y@.len(),
            text::runs(x@) == names(a@),
            text::runs(y@) == names(b@),
            forall|j: int| 0 <= j < i ==> (#[trigger] x@[j])@ == y@[j]@,
        decreases x@.len() - i,
    {
        if !same_chars(&x[i], &y[i]) {
            assert(text::runs(x@)[i as int] != text::runs(y@)[i as int]);
            return false;
        }
        i += 1;
    }
    assert(text::runs(x@) =~= text::runs(y@));
    true
}

/// A name more is a component more; a separator at the end, a second separator and
/// a `.` are none.
proof fn lemma_longer(p: Seq<char>, name: Seq<char>)
    requires
        p.len() > 0,
        !name.contains('/'),
    ensures
        text::is_absolute(p + seq!['/'] + name) == text::is_absolute(p),
        from_here(p + seq!['/'] + name) == from_here(p),
        is_naming(name) ==> names(p + seq!['/'] + name) == names(p).push(name),
        !is_naming(name) ==> names(p + seq!['/'] + name) == names(p),
{
    let s = p + seq!['/'] + name;
    text::law_pieces_are_cut_at_the_separator(p, name, '/');
    assert(s[0] == p[0]);
    assert(segments(s)[0] == segments(p)[0]);
    segments(p).lemma_filter_push(name, |x: Seq<char>| is_naming(x));
}

/// Paths that are written differently are the same where only a separator at the
/// end, a doubled separator or a `.` makes the difference; and paths that go on
/// from the same place with different names are not the same.
pub proof fn law_spelling_of_paths(p: Seq<char>, a: Seq<char>, b: Seq<char>)
    requires
        p.len() > 0,
        a.len() > 0 && a != seq!['.'] && !a.contains('/'),
        b.len() > 0 && b != seq!['.'] && !b.contains('/'),
    ensures
        same_path(p, p),
        same_path(p + seq!['/'], p),
        same_path(p + seq!['/', '.'], p),
        same_path(p + seq!['/', '/'] + a, p + seq!['/'] + a),
        same_path(p + seq!['/', '.', '/'] + a, p + seq!['/'] + a),
        same_path(p + seq!['/'] + a, p + seq!['/'] + b) <==> a == b,
        !same_path(p + seq!['/'] + a, p),
{
    let none = Seq::<char>::empty();
    let dot = seq!['.'];
    let q = p + seq!['/'];
    let d = p + seq!['/', '.'];
    assert(!none.contains('/') && !is_naming(none));
    assert(!dot.contains('/') && !is_naming(dot));
    lemma_longer(p, none);
    assert(p + seq!['/'] + none =~= q);
    lemma_longer(p, dot);
    assert(p + seq!['/'] + dot =~= d);
    lemma_longer(p, a);
    lemma_longer(p, b);
    lemma_longer(q, a);
    assert(q + seq!['/'] + a =~= p + seq!['/', '/'] + a);
    lemma_longer(d, a);
    assert(d + seq!['/'] + a =~= p + seq!['/', '.', '/'] + a);
    assert(names(p).push(a).last() == a);
    assert(names(p).push(b).last() == b);
    assert(names(p).push(a).len() == names(p).len() + 1);
}

/// A path from the root is never the same as one that is not.
pub proof fn law_absolute_and_relative_differ(a: Seq<char>, b: Seq<char>)
    requires
        a.len() > 0 && a[0] == '/',
        b.len() == 0 || b[0] != '/',
    ensures
        !same_path(a, b),
        !same_path(b, a),
{
}

} // verus!
