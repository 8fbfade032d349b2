//! Text: order, characters, numerals, concatenation.

use vstd::prelude::*;
use vstd::string::*;

verus! {

/// How two texts stand to each other.
#[derive(Clone, Copy, PartialEq, Eq, Structural, Debug)]
pub enum Relation {
    Before,
    Same,
    After,
}

/// `a` and `b` agree before position `k`, and `a` has there no character, or a
/// smaller one.
pub open spec fn precedes_at(a: Seq<char>, b: Seq<char>, k: int) -> bool {
    &&& 0 <= k <= a.len()
    &&& k < b.len()
    &&& forall|j: int| 0 <= j < k ==> #[trigger] a[j] == b[j]
    &&& k == a.len() || a[k] < b[k]
}

/// Dictionary order on texts, character by character.
pub open spec fn precedes(a: Seq<char>, b: Seq<char>) -> bool {
    exists|k: int| precedes_at(a, b, k)
}

pub proof fn lemma_precedes_irreflexive(a: Seq<char>)
    ensures
        !precedes(a, a),
{
}

pub proof fn lemma_precedes_asymmetric(a: Seq<char>, b: Seq<char>)
    requires
        precedes(a, b),
    ensures
        !precedes(b, a),
        a != b,
{
    let k = choose|k: int| precedes_at(a, b, k);
    if precedes(b, a) {
        let m = choose|m: int| precedes_at(b, a, m);
        if k < m {
            assert(b[k] == a[k]);
        } else if m < k {
            assert(a[m] == b[m]);
        }
    }
}

pub proof fn lemma_precedes_transitive(a: Seq<char>, b: Seq<char>, c: Seq<char>)
    requires
        precedes(a, b),
        precedes(b, c),
    ensures
        precedes(a, c),
{
    let k = choose|k: int| precedes_at(a, b, k);
    let m = choose|m: int| precedes_at(b, c, m);
    let n = if k < m { k } else { m };
    assert forall|j: int| 0 <= j < n implies #[trigger] a[j] == c[j] by {
        assert(a[j] == b[j]);
        assert(b[j] == c[j]);
    }
    if k < m {
        assert(b[k] == c[k]);
    } else if m < k {
        assert(a[m] == b[m]);
    }
    assert(precedes_at(a, c, n));
}

pub proof fn lemma_precedes_total(a: Seq<char>, b: Seq<char>)
    ensures
        precedes(a, b) || precedes(b, a) || a == b,
{
    if a != b {
        if forall|j: int| 0 <= j < a.len() && j < b.len() ==> a[j] == b[j] {
            if a.len() < b.len() {
                assert(precedes_at(a, b, a.len() as int));
            } else if b.len() < a.len() {
                assert(precedes_at(b, a, b.len() as int));
            } else {
                assert(a =~= b);
            }
        } else {
            let k = lemma_first_difference(a, b, 0);
            if a[k] < b[k] {
                assert(precedes_at(a, b, k));
            } else {
                assert(precedes_at(b, a, k));
            }
        }
    }
}

proof fn lemma_first_difference(a: Seq<char>, b: Seq<char>, from: int) -> (k: int)
    requires
        0 <= from,
        forall|j: int| 0 <= j < from ==> #[trigger] a[j] == b[j],
        exists|j: int| 0 <= j < a.len() && j < b.len() && a[j] != b[j],
    ensures
        0 <= k < a.len(),
        k < b.len(),
        a[k] != b[k],
        forall|j: int| 0 <= j < k ==> #[trigger] a[j] == b[j],
    decreases a.len() - from,
{
    if a[from] != b[from] && from < a.len() && from < b.len() {
        from
    } else {
        let m = choose|j: int| 0 <= j < a.len() && j < b.len() && a[j] != b[j];
        lemma_first_difference(a, b, from + 1)
    }
}

/// The characters of a text, in order.
pub fn chars_of(s: &str) -> (v: Vec<char>)
    ensures
        v@ == s@,
{
    let mut v: Vec<char> = Vec::new();
    for c in it: s.chars()
        invariant
            v@ == it.seq().take(it.index() as int),
            it.seq() == s@,
    {
        v.push(c);
        assert(v@ == it.seq().take(it.index() as int + 1));
    }
    assert(v@ == s@);
    v
}

/// Where `a` stands against `b` in dictionary order.
pub fn relation(a: &str, b: &str) -> (r: Relation)
    ensures
        r == Relation::Before <==> precedes(a@, b@),
        r == Relation::Same <==> a@ == b@,
        r == Relation::After <==> precedes(b@, a@),
{
    let x = chars_of(a);
    let y = chars_of(b);
    let mut i: usize = 0;
    while i < x.len() && i < y.len() && x[i] == y[i]
        invariant
            x@ == a@,
            y@ == b@,
            i <= x.len(),
            i <= y.len(),
            forall|j: int| 0 <= j < i ==> #[trigger] x@[j] == y@[j],
        decreases x.len() - i,
    {
        i += 1;
    }
    if i == x.len() && i == y.len() {
        assert(a@ =~= b@);
        proof {
            lemma_precedes_irreflexive(a@);
        }
        Relation::Same
    } else if i < y.len() && (i == x.len() || x[i] < y[i]) {
        proof {
            assert(precedes_at(a@, b@, i as int));
            lemma_precedes_asymmetric(a@, b@);
        }
        Relation::Before
    } else {
        proof {
            assert(precedes_at(b@, a@, i as int));
            lemma_precedes_asymmetric(b@, a@);
        }
        Relation::After
    }
}

pub fn same(a: &str, b: &str) -> (r: bool)
    ensures
        r == (a@ == b@),
{
    relation(a, b) == Relation::Same
}

/// White space, as Unicode's `White_Space` property lists it.
pub open spec fn is_space(c: char) -> bool {
    let n = c as int;
    ||| 0x09 <= n <= 0x0d
    ||| n == 0x20
    ||| n == 0x85
    ||| n == 0xa0
    ||| n == 0x1680
    ||| 0x2000 <= n <= 0x200a
    ||| n == 0x2028
    ||| n == 0x2029
    ||| n == 0x202f
    ||| n == 0x205f
    ||| n == 0x3000
}

fn space(c: char) -> (r: bool)
    ensures
        r == is_space(c),
{
    let n: u32 = c as u32;
    (0x09 <= n && n <= 0x0d) || n == 0x20 || n == 0x85 || n == 0xa0 || n == 0x1680 || (0x2000 <= n
        && n <= 0x200a) || n == 0x2028 || n == 0x2029 || n == 0x202f || n == 0x205f || n == 0x3000
}

/// Nothing but white space.
pub open spec fn is_blank(s: Seq<char>) -> bool {
    forall|i: int| 0 <= i < s.len() ==> is_space(#[trigger] s[i])
}

pub fn blank(s: &str) -> (r: bool)
    ensures
        r == is_blank(s@),
{
    let v = chars_of(s);
    let mut i: usize = 0;
    while i < v.len()
        invariant
            v@ == s@,
            i <= v.len(),
            forall|j: int| 0 <= j < i ==> is_space(#[trigger] s@[j]),
        decreases v.len() - i,
    {
        if !space(v[i]) {
            assert(!is_space(s@[i as int]));
            return false;
        }
        i += 1;
    }
    true
}

/// No white space anywhere.
pub open spec fn is_unbroken(s: Seq<char>) -> bool {
    forall|i: int| 0 <= i < s.len() ==> !is_space(#[trigger] s[i])
}

pub fn unbroken(s: &str) -> (r: bool)
    ensures
        r == is_unbroken(s@),
{
    let v = chars_of(s);
    let mut i: usize = 0;
    while i < v.len()
        invariant
            v@ == s@,
            i <= v.len(),
            forall|j: int| 0 <= j < i ==> !is_space(#[trigger] s@[j]),
        decreases v.len() - i,
    {
        if space(v[i]) {
            assert(is_space(s@[i as int]));
            return false;
        }
        i += 1;
    }
    true
}

/// A letter or digit of ASCII, `-` or `_`.
pub open spec fn is_name_char(c: char) -> bool {
    ||| 'a' <= c <= 'z'
    ||| 'A' <= c <= 'Z'
    ||| '0' <= c <= '9'
    ||| c == '-'
    ||| c == '_'
}

/// A name: at least one character, and all of them name characters.
pub open spec fn is_name(s: Seq<char>) -> bool {
    s.len() > 0 && forall|i: int| 0 <= i < s.len() ==> is_name_char(#[trigger] s[i])
}

pub fn name(s: &str) -> (r: bool)
    ensures
        r == is_name(s@),
{
    let v = chars_of(s);
    let mut i: usize = 0;
    while i < v.len()
        invariant
            v@ == s@,
            i <= v.len(),
            forall|j: int| 0 <= j < i ==> is_name_char(#[trigger] s@[j]),
        decreases v.len() - i,
    {
        let c: char = v[i];
        if !(('a' <= c && c <= 'z') || ('A' <= c && c <= 'Z') || ('0' <= c && c <= '9') || c == '-'
            || c == '_') {
            assert(!is_name_char(s@[i as int]));
            return false;
        }
        i += 1;
    }
    v.len() > 0
}

/// `prefix` stands at the beginning of `s`.
pub open spec fn begins_with(s: Seq<char>, prefix: Seq<char>) -> bool {
    prefix.len() <= s.len() && s.take(prefix.len() as int) == prefix
}

pub fn starts_with(s: &str, prefix: &str) -> (r: bool)
    ensures
        r == begins_with(s@, prefix@),
{
    let v = chars_of(s);
    let p = chars_of(prefix);
    if p.len() > v.len() {
        return false;
    }
    let mut i: usize = 0;
    while i < p.len()
        invariant
            v@ == s@,
            p@ == prefix@,
            i <= p.len() <= v.len(),
            forall|j: int| 0 <= j < i ==> #[trigger] p@[j] == v@[j],
        decreases p.len() - i,
    {
        if v[i] != p[i] {
            assert(s@.take(prefix@.len() as int)[i as int] != prefix@[i as int]);
            return false;
        }
        i += 1;
    }
    assert(s@.take(prefix@.len() as int) =~= prefix@);
    true
}

/// An absolute path: it begins at the root.
pub open spec fn is_absolute(path: Seq<char>) -> bool {
    path.len() > 0 && path[0] == '/'
}

pub fn absolute(path: &str) -> (r: bool)
    ensures
        r == is_absolute(path@),
{
    let v = chars_of(path);
    v.len() > 0 && v[0] == '/'
}

pub open spec fn digit(d: nat) -> char {
    (48 + d) as char
}

/// The decimal numeral of a number.
pub open spec fn decimal(n: nat) -> Seq<char>
    decreases n,
{
    if n < 10 {
        seq![digit(n)]
    } else {
        decimal(n / 10).push(digit(n % 10))
    }
}

fn digit_text(d: u64) -> (s: &'static str)
    requires
        d < 10,
    ensures
        s@ == seq![digit(d as nat)],
{
    proof {
        reveal_strlit("0");
        reveal_strlit("1");
        reveal_strlit("2");
        reveal_strlit("3");
        reveal_strlit("4");
        reveal_strlit("5");
        reveal_strlit("6");
        reveal_strlit("7");
        reveal_strlit("8");
        reveal_strlit("9");
    }
    let s: &'static str = match d {
        0 => "0",
        1 => "1",
        2 => "2",
        3 => "3",
        4 => "4",
        5 => "5",
        6 => "6",
        7 => "7",
        8 => "8",
        _ => "9",
    };
    assert(s@ =~= seq![digit(d as nat)]);
    s
}

/// The decimal numeral of `n`.
pub fn number(n: u64) -> (s: String)
    ensures
        s@ == decimal(n as nat),
    decreases n,
{
    if n < 10 {
        digit_text(n).to_string()
    } else {
        let mut s = number(n / 10);
        s.append(digit_text(n % 10));
        assert(s@ =~= decimal((n / 10) as nat).push(digit((n % 10) as nat)));
        s
    }
}

/// One text after the other.
pub fn joined(a: &str, b: &str) -> (s: String)
    ensures
        s@ == a@ + b@,
{
    let mut s = a.to_string();
    s.append(b);
    s
}

/// Three texts, one after the other.
pub fn joined3(a: &str, b: &str, c: &str) -> (s: String)
    ensures
        s@ == a@ + b@ + c@,
{
    let mut s = a.to_string();
    s.append(b);
    s.append(c);
    s
}

/// The stretches of a text between the separators in it, empty ones too.
pub open spec fn pieces(s: Seq<char>, sep: char) -> Seq<Seq<char>>
    decreases s.len(),
{
    if s.len() == 0 {
        seq![Seq::empty()]
    } else {
        let p = pieces(s.drop_last(), sep);
        if s.last() == sep {
            p.push(Seq::empty())
        } else {
            p.drop_last().push(p.last().push(s.last()))
        }
    }
}

/// What vectors of characters hold.
pub open spec fn runs(v: Seq<Vec<char>>) -> Seq<Seq<char>> {
    v.map_values(|x: Vec<char>| x@)
}

/// The pieces of `s` from position `from` on.
pub fn split(s: &Vec<char>, from: usize, sep: char) -> (r: Vec<Vec<char>>)
    requires
        from <= s@.len(),
    ensures
        runs(r@) == pieces(s@.skip(from as int), sep),
        r@.len() > 0,
{
    let ghost whole = s@.skip(from as int);
    let mut out: Vec<Vec<char>> = Vec::new();
    let mut current: Vec<char> = Vec::new();
    let mut i: usize = from;
    assert(whole.take(0) =~= Seq::<char>::empty());
    assert(runs(out@) =~= pieces(whole.take(0), sep).drop_last());
    while i < s.len()
        invariant
            from <= i <= s@.len(),
            whole == s@.skip(from as int),
            pieces(whole.take(i - from), sep).len() > 0,
            current@ == pieces(whole.take(i - from), sep).last(),
            runs(out@) == pieces(whole.take(i - from), sep).drop_last(),
        decreases s@.len() - i,
    {
        let ghost p = pieces(whole.take(i - from), sep);
        assert(whole.take(i + 1 - from).drop_last() =~= whole.take(i - from));
        assert(whole.take(i + 1 - from).last() == s@[i as int]);
        let ghost q = pieces(whole.take(i + 1 - from), sep);
        if s[i] == sep {
            assert(q.drop_last() =~= p);
            let mut done: Vec<char> = Vec::new();
            std::mem::swap(&mut done, &mut current);
            let ghost held = out@;
            out.push(done);
            assert(runs(out@) =~= runs(held).push(p.last()));
            assert(runs(out@) =~= p);
        } else {
            current.push(s[i]);
            assert(q.drop_last() =~= p.drop_last());
        }
        i += 1;
    }
    assert(whole.take(i - from) =~= whole);
    let ghost held = out@;
    out.push(current);
    assert(runs(out@) =~= runs(held).push(current@));
    assert(runs(out@) =~= pieces(whole, sep));
    out
}

pub fn same_chars(a: &Vec<char>, b: &Vec<char>) -> (r: bool)
    ensures
        r == (a@ == b@),
{
    if a.len() != b.len() {
        return false;
    }
    let mut i: usize = 0;
    while i < a.len()
        invariant
            i <= a@.len() == b@.len(),
            forall|j: int| 0 <= j < i ==> #[trigger] a@[j] == b@[j],
        decreases a@.len() - i,
    {
        if a[i] != b[i] {
            return false;
        }
        i += 1;
    }
    assert(a@ =~= b@);
    true
}

/// A line without the carriage return at its end.
pub open spec fn chopped(line: Seq<char>) -> Seq<char> {
    if line.len() > 0 && line.last() == '\r' {
        line.drop_last()
    } else {
        line
    }
}

/// The lines of a text: each ends in a newline, or in a carriage return and a
/// newline; the last one need not.
pub open spec fn lines(s: Seq<char>) -> Seq<Seq<char>> {
    let p = pieces(s, '\n');
    let ended = p.drop_last().map_values(|l: Seq<char>| chopped(l));
    if p.last().len() == 0 {
        ended
    } else {
        ended.push(p.last())
    }
}

pub fn lines_of(s: &str) -> (r: Vec<Vec<char>>)
    ensures
        runs(r@) == lines(s@),
{
    let v = chars_of(s);
    let p = split(&v, 0, '\n');
    assert(v@.skip(0) =~= s@);
    let ghost all = pieces(s@, '\n');
    let n: usize = p.len() - 1;
    let mut out: Vec<Vec<char>> = Vec::new();
    for line in it: p
        invariant
            runs(it.seq()) == all,
            all.len() == n + 1,
            out@.len() <= it.index(),
            it.index() <= n ==> out@.len() == it.index() && runs(out@) == all.take(
                it.index() as int,
            ).map_values(|l: Seq<char>| chopped(l)),
            it.index() == n + 1 ==> runs(out@) == lines(s@),
            all == pieces(s@, '\n'),
    {
        let ghost k = it.index() as int;
        assert(all[k] == line@);
        let mut line = line;
        let ghost held = out@;
        if out.len() < n {
            if line.len() > 0 && line[line.len() - 1] == '\r' {
                let _ = line.pop();
            }
            assert(line@ == chopped(all[k]));
            out.push(line);
            assert(runs(out@) =~= runs(held).push(chopped(all[k])));
            assert(runs(out@) =~= all.take(k + 1).map_values(|l: Seq<char>| chopped(l)));
        } else {
            assert(all.take(k) =~= all.drop_last());
            if line.len() > 0 {
                out.push(line);
                assert(runs(out@) =~= runs(held).push(all.last()));
            }
        }
    }
    out
}

/// What the digits of a numeral come to; nothing where a character is no digit,
/// or there is none.
pub open spec fn digits_value(s: Seq<char>) -> Option<nat>
    decreases s.len(),
{
    if s.len() == 0 || !('0' <= s.last() <= '9') {
        None
    } else if s.len() == 1 {
        Some((s.last() as int - 48) as nat)
    } else {
        match digits_value(s.drop_last()) {
            Some(n) => Some((10 * n + (s.last() as int - 48)) as nat),
            None => None,
        }
    }
}

/// The number that a numeral stands for, up to `max`. A plus sign may stand
/// before the digits.
pub open spec fn unsigned_value(s: Seq<char>, max: int) -> Option<nat> {
    let digits = if s.len() > 0 && s[0] == '+' {
        s.drop_first()
    } else {
        s
    };
    match digits_value(digits) {
        Some(n) => if n <= max {
            Some(n)
        } else {
            None
        },
        None => None,
    }
}

proof fn lemma_digits_value_prefix(s: Seq<char>, k: int)
    requires
        0 < k <= s.len(),
        digits_value(s) is Some,
    ensures
        digits_value(s.take(k)) is Some,
        digits_value(s.take(k))->0 <= digits_value(s)->0,
    decreases s.len(),
{
    if k == s.len() {
        assert(s.take(k) =~= s);
    } else {
        assert(s.drop_last().take(k) =~= s.take(k));
        lemma_digits_value_prefix(s.drop_last(), k);
    }
}

/// The number that the characters from `from` on stand for, up to `max`.
pub fn unsigned(v: &Vec<char>, from: usize, max: u64) -> (r: Option<u64>)
    requires
        from <= v@.len(),
        max <= 0xffff_ffff,
    ensures
        match r {
            Some(n) => unsigned_value(v@.skip(from as int), max as int) == Some(n as nat),
            None => unsigned_value(v@.skip(from as int), max as int) is None,
        },
{
    let ghost whole = v@.skip(from as int);
    let start: usize = if from < v.len() && v[from] == '+' {
        from + 1
    } else {
        from
    };
    let ghost digits = v@.skip(start as int);
    assert(start > from ==> digits =~= whole.drop_first());
    assert(from < v@.len() ==> whole[0] == v@[from as int]);
    if start >= v.len() {
        return None;
    }
    let mut n: u64 = 0;
    let mut i: usize = start;
    while i < v.len()
        invariant
            start <= i <= v@.len(),
            start < v@.len(),
            digits == v@.skip(start as int),
            n <= max <= 0xffff_ffff,
            i == start ==> n == 0,
            i > start ==> digits_value(digits.take(i - start)) == Some(n as nat),
            unsigned_value(whole, max as int) == (match digits_value(digits) {
                Some(n) => if n <= max {
                    Some(n)
                } else {
                    None
                },
                None => None,
            }),
            whole == v@.skip(from as int),
        decreases v@.len() - i,
    {
        let c: char = v[i];
        let ghost t = digits.take(i + 1 - start);
        assert(t.drop_last() =~= digits.take(i - start));
        assert(t.last() == c);
        if c < '0' || '9' < c {
            proof {
                if digits_value(digits) is Some {
                    lemma_digits_value_prefix(digits, i + 1 - start);
                }
            }
            return None;
        }
        let d: u64 = c as u64 - 48;
        n = 10 * n + d;
        assert(digits_value(t) == Some(n as nat));
        if n > max {
            proof {
                if digits_value(digits) is Some {
                    lemma_digits_value_prefix(digits, i + 1 - start);
                }
            }
            return None;
        }
        i += 1;
    }
    assert(digits.take(i - start) =~= digits);
    Some(n)
}

/// A text without the white space at its ends.
pub open spec fn trimmed(s: Seq<char>) -> Seq<char>
    decreases s.len(),
{
    if s.len() > 0 && is_space(s.first()) {
        trimmed(s.drop_first())
    } else if s.len() > 0 && is_space(s.last()) {
        trimmed(s.drop_last())
    } else {
        s
    }
}

pub fn trim(s: &str) -> (r: &str)
    ensures
        r@ == trimmed(s@),
{
    let v = chars_of(s);
    let mut i: usize = 0;
    let mut j: usize = v.len();
    assert(s@.subrange(0, j as int) =~= s@);
    while i < j && space(v[i])
        invariant
            v@ == s@,
            i <= j == v@.len(),
            trimmed(s@) == trimmed(s@.subrange(i as int, j as int)),
        decreases j - i,
    {
        assert(s@.subrange(i as int, j as int).drop_first() =~= s@.subrange(i + 1, j as int));
        i += 1;
    }
    assert(i < j ==> !is_space(v@[i as int]));
    while i < j && space(v[j - 1])
        invariant
            v@ == s@,
            i <= j <= v@.len(),
            i < j ==> !is_space(v@[i as int]),
            trimmed(s@) == trimmed(s@.subrange(i as int, j as int)),
        decreases j - i,
    {
        assert(s@.subrange(i as int, j as int).drop_last() =~= s@.subrange(i as int, j - 1));
        j -= 1;
    }
    s.substring_char(i, j)
}

/// A text is cut at every separator and nowhere else: what follows the last one is
/// the last piece, and what stands before it is cut by itself.
pub proof fn law_pieces_are_cut_at_the_separator(a: Seq<char>, b: Seq<char>, sep: char)
    requires
        !b.contains(sep),
    ensures
        pieces(b, sep) == seq![b],
        pieces(a + seq![sep] + b, sep) == pieces(a, sep).push(b),
        pieces(a, sep).len() > 0,
    decreases b.len(),
{
    lemma_pieces_some(a, sep);
    if b.len() == 0 {
        assert(b =~= Seq::<char>::empty());
        assert(a + seq![sep] + b =~= a.push(sep));
        assert(a.push(sep).drop_last() =~= a);
    } else {
        let h = b.drop_last();
        assert(!h.contains(sep)) by {
            if h.contains(sep) {
                let i = choose|i: int| 0 <= i < h.len() && h[i] == sep;
                assert(b[i] == sep);
            }
        }
        assert(b.contains(b.last()));
        law_pieces_are_cut_at_the_separator(a, h, sep);
        assert(h.push(b.last()) =~= b);
        let s = a + seq![sep] + b;
        assert(s.drop_last() =~= a + seq![sep] + h);
        assert(pieces(a, sep).push(h).drop_last() =~= pieces(a, sep));
        assert(pieces(b, sep) =~= seq![b]);
    }
}

proof fn lemma_pieces_some(s: Seq<char>, sep: char)
    ensures
        pieces(s, sep).len() > 0,
    decreases s.len(),
{
    if s.len() > 0 {
        lemma_pieces_some(s.drop_last(), sep);
    }
}

/// Lines are added one by one: one that ends in a newline counts without it, and
/// without a carriage return before it; what is left at the end counts as it is,
/// and nothing counts nothing.
pub proof fn law_lines_end_in_newlines(s: Seq<char>, l: Seq<char>)
    requires
        s.len() == 0 || s.last() == '\n',
        !l.contains('\n'),
    ensures
        lines(Seq::<char>::empty()).len() == 0,
        l.len() == 0 || l.last() != '\r' ==> lines(s + l + seq!['\n']) == lines(s).push(l),
        l.len() > 0 && l.last() == '\r' ==> lines(s + l + seq!['\n']) == lines(s).push(
            l.drop_last(),
        ),
        l.len() > 0 ==> lines(s + l) == lines(s).push(l),
{
    let none = Seq::<char>::empty();
    let chop = |x: Seq<char>| chopped(x);
    assert(!none.contains('\n'));
    law_pieces_are_cut_at_the_separator(none, none, '\n');
    law_pieces_are_cut_at_the_separator(none, l, '\n');
    law_pieces_are_cut_at_the_separator(s + l, none, '\n');
    assert(s + l + seq!['\n'] + none =~= s + l + seq!['\n']);
    let p = pieces(s, '\n');
    if s.len() == 0 {
        assert(s =~= none);
        assert(s + l =~= l);
        assert(pieces(s + l, '\n') =~= seq![l]);
        assert(p =~= seq![none]);
        assert(lines(s) =~= Seq::<Seq<char>>::empty());
    } else {
        let h = s.drop_last();
        law_pieces_are_cut_at_the_separator(h, l, '\n');
        law_pieces_are_cut_at_the_separator(h, none, '\n');
        assert(h + seq!['\n'] + l =~= s + l);
        assert(h + seq!['\n'] + none =~= s);
        let q = pieces(h, '\n');
        assert(pieces(s + l, '\n') == q.push(l));
        assert(p == q.push(none));
        assert(p.drop_last() =~= q);
        assert(lines(s) == q.map_values(chop));
    }
    let w = pieces(s + l, '\n');
    let full = pieces(s + l + seq!['\n'], '\n');
    assert(full == w.push(none));
    assert(full.drop_last() =~= w);
    assert(w.last() == l);
    assert(w.drop_last().map_values(chop) =~= lines(s));
    assert(w.map_values(chop) =~= lines(s).push(chopped(l)));
    assert(lines(s + l + seq!['\n']) =~= lines(s).push(chopped(l)));
    assert(lines(none) =~= Seq::<Seq<char>>::empty()) by {
        assert(pieces(none, '\n').drop_last() =~= Seq::<Seq<char>>::empty());
    }
}

/// A numeral stands for its number: it is read back as what it was written for,
/// where that is not too large, with or without a plus sign.
pub proof fn law_numerals_are_read_back(n: nat, max: int)
    ensures
        decimal(n).len() > 0,
        forall|i: int| 0 <= i < decimal(n).len() ==> '0' <= #[trigger] decimal(n)[i] <= '9',
        n <= max ==> unsigned_value(decimal(n), max) == Some(n),
        n > max ==> unsigned_value(decimal(n), max) is None,
        unsigned_value(seq!['+'] + decimal(n), max) == unsigned_value(decimal(n), max),
{
    lemma_decimal(n);
    assert('0' <= decimal(n)[0] <= '9');
    assert((seq!['+'] + decimal(n)).drop_first() =~= decimal(n));
}

proof fn lemma_decimal(n: nat)
    ensures
        decimal(n).len() > 0,
        forall|i: int| 0 <= i < decimal(n).len() ==> '0' <= #[trigger] decimal(n)[i] <= '9',
        digits_value(decimal(n)) == Some(n),
    decreases n,
{
    if n >= 10 {
        lemma_decimal(n / 10);
        assert(decimal(n).drop_last() =~= decimal(n / 10));
        assert(decimal(n).last() == digit(n % 10));
    }
}

/// A text that has anything but digits is no numeral, but for a plus sign at its
/// beginning; nor is one without digits.
pub proof fn law_only_digits_make_a_numeral(s: Seq<char>, i: int, max: int)
    ensures
        0 <= i < s.len() && !('0' <= s[i] <= '9') && !(i == 0 && s[0] == '+')
            ==> unsigned_value(s, max) is None,
        s.len() == 0 || s == seq!['+'] ==> unsigned_value(s, max) is None,
{
    if 0 <= i < s.len() && !('0' <= s[i] <= '9') && !(i == 0 && s[0] == '+') {
        if s[0] == '+' {
            assert(s.drop_first()[i - 1] == s[i]);
            lemma_no_numeral(s.drop_first(), i - 1);
        } else {
            lemma_no_numeral(s, i);
        }
    }
    if s == seq!['+'] {
        assert(s.drop_first() =~= Seq::<char>::empty());
    }
}

proof fn lemma_no_numeral(s: Seq<char>, i: int)
    requires
        0 <= i < s.len(),
        !('0' <= s[i] <= '9'),
    ensures
        digits_value(s) is None,
    decreases s.len(),
{
    if i < s.len() - 1 {
        assert(s.drop_last()[i] == s[i]);
        lemma_no_numeral(s.drop_last(), i);
    }
}

/// What is trimmed off is white space at the ends, and all of it.
pub proof fn law_trimming_takes_white_space_off(a: Seq<char>, t: Seq<char>, b: Seq<char>)
    requires
        forall|i: int| 0 <= i < a.len() ==> is_space(#[trigger] a[i]),
        forall|i: int| 0 <= i < b.len() ==> is_space(#[trigger] b[i]),
        t.len() > 0 ==> !is_space(t.first()) && !is_space(t.last()),
    ensures
        trimmed(a + t + b) == t,
    decreases a.len() + b.len(),
{
    let s = a + t + b;
    if a.len() > 0 {
        assert(s.first() == a[0]);
        let h = a.drop_first();
        assert forall|i: int| 0 <= i < h.len() implies is_space(#[trigger] h[i]) by {
            assert(h[i] == a[i + 1]);
        }
        law_trimming_takes_white_space_off(h, t, b);
        assert(s.drop_first() =~= h + t + b);
    } else if b.len() > 0 {
        if t.len() > 0 {
            assert(s.first() == t.first());
            assert(s.last() == b[b.len() - 1]);
            law_trimming_takes_white_space_off(a, t, b.drop_last());
            assert(s.drop_last() =~= a + t + b.drop_last());
        } else {
            assert(s.first() == b[0]);
            let h = b.drop_first();
            assert forall|i: int| 0 <= i < h.len() implies is_space(#[trigger] h[i]) by {
                assert(h[i] == b[i + 1]);
            }
            law_trimming_takes_white_space_off(a, t, h);
            assert(s.drop_first() =~= a + t + h);
        }
    } else {
        assert(s =~= t);
    }
}

/// Of ASCII, white space is the blank and the five controls from tab to carriage
/// return; beyond it, the next line, the two blanks that do not break, the marks and
/// blanks of typesetting, and the separators of lines and paragraphs.
pub proof fn law_white_space(c: char)
    ensures
        (c as int) < 0x80 ==> (is_space(c) <==> c == ' ' || c == '\t' || c == '\n' || c == '\r'
            || c as int == 0x0b || c as int == 0x0c),
        (c as int) >= 0x80 ==> (is_space(c) <==> c as int == 0x85 || c as int == 0xa0 || c as int
            == 0x1680 || 0x2000 <= c as int <= 0x200a || c as int == 0x2028 || c as int == 0x2029
            || c as int == 0x202f || c as int == 0x205f || c as int == 0x3000),
{
}

/// A text begins with another just where it is that one followed by something.
pub proof fn law_prefix_is_followed_by_the_rest(s: Seq<char>, p: Seq<char>, rest: Seq<char>)
    ensures
        begins_with(p + rest, p),
        begins_with(s, p) <==> exists|r: Seq<char>| s == #[trigger] (p + r),
{
    assert((p + rest).take(p.len() as int) =~= p);
    if begins_with(s, p) {
        let r = s.skip(p.len() as int);
        assert(s =~= p + r);
    }
    assert forall|r: Seq<char>| s == #[trigger] (p + r) implies begins_with(s, p) by {
        assert((p + r).take(p.len() as int) =~= p);
    }
}

/// Texts are ordered by their first difference; a text stands before whatever
/// continues it.
pub proof fn law_first_difference_decides(
    p: Seq<char>,
    a: char,
    x: Seq<char>,
    b: char,
    y: Seq<char>,
)
    ensures
        precedes(p, p + seq![a] + x),
        a < b ==> precedes(p + seq![a] + x, p + seq![b] + y),
        a > b ==> !precedes(p + seq![a] + x, p + seq![b] + y),
{
    let s = p + seq![a] + x;
    let t = p + seq![b] + y;
    let k = p.len() as int;
    assert(precedes_at(p, s, k));
    if a < b {
        assert(precedes_at(s, t, k));
    }
    if a > b {
        assert(precedes_at(t, s, k));
        assert(precedes(t, s));
        if precedes(s, t) {
            lemma_precedes_asymmetric(s, t);
        }
    }
}

/// A text that is cut at all ends in a separator and the last piece, in which there
/// is no separator.
pub proof fn law_last_piece_follows_a_separator(s: Seq<char>, sep: char) -> (a: Seq<char>)
    ensures
        !pieces(s, sep).last().contains(sep),
        pieces(s, sep).len() > 1 ==> s == a + seq![sep] + pieces(s, sep).last(),
        pieces(s, sep).len() == 1 ==> s == pieces(s, sep).last(),
    decreases s.len(),
{
    lemma_pieces_some(s, sep);
    if s.len() == 0 {
        assert(s =~= Seq::<char>::empty());
        s
    } else {
        let h = s.drop_last();
        let a = law_last_piece_follows_a_separator(h, sep);
        lemma_pieces_some(h, sep);
        let p = pieces(h, sep);
        assert(h.push(s.last()) =~= s);
        if s.last() == sep {
            assert(s =~= h + seq![sep] + Seq::<char>::empty());
            assert(pieces(s, sep).last() =~= Seq::<char>::empty());
            h
        } else {
            let l = p.last();
            assert(pieces(s, sep).last() == l.push(s.last()));
            assert(!l.push(s.last()).contains(sep)) by {
                if l.push(s.last()).contains(sep) {
                    let i = choose|i: int|
                        0 <= i < l.push(s.last()).len() && l.push(s.last())[i] == sep;
                    if i < l.len() {
                        assert(l[i] == sep);
                    }
                }
            }
            if pieces(s, sep).len() > 1 {
                assert(s =~= a + seq![sep] + l.push(s.last()));
            } else {
                assert(s =~= l.push(s.last()));
            }
            a
        }
    }
}

} // verus!
