//! Character-level text helpers over `String` / `Vec<char>`, specified over `Seq<char>`.
use vstd::prelude::*;

verus! {

/// `String::push` appends one character: the view gains that character at its end.
pub assume_specification[ String::push ](s: &mut String, ch: char)
    ensures
        final(s)@ == old(s)@.push(ch),
;

/// The characters of a string slice, in order.
pub fn chars_of(s: &str) -> (r: Vec<char>)
    ensures
        r@ == s@,
{
    let mut v: Vec<char> = Vec::new();
    for c in it: s.chars()
        invariant
            v@ == it.seq().take(it.index() as int),
    {
        v.push(c);
    }
    v
}

/// A `String` holding exactly the given characters.
pub fn string_of(v: &Vec<char>) -> (r: String)
    ensures
        r@ == v@,
{
    let mut s = String::new();
    let mut i: usize = 0;
    while i < v.len()
        invariant
            i <= v.len(),
            s@ == v@.take(i as int),
        decreases v.len() - i,
    {
        s.push(v[i]);
        i = i + 1;
        assert(s@ =~= v@.take(i as int));
    }
    assert(v@.take(v.len() as int) =~= v@);
    s
}


/// `pre` is a prefix of `s`.
pub open spec fn is_prefix(pre: Seq<char>, s: Seq<char>) -> bool {
    pre.len() <= s.len() && s.subrange(0, pre.len() as int) == pre
}

/// `suf` is a suffix of `s`.
pub open spec fn is_suffix(suf: Seq<char>, s: Seq<char>) -> bool {
    suf.len() <= s.len() && s.subrange(s.len() - suf.len(), s.len() as int) == suf
}

/// `pat` occurs in `s` at position `i`.
pub open spec fn occurs_at(s: Seq<char>, pat: Seq<char>, i: int) -> bool {
    0 <= i && i + pat.len() <= s.len() && s.subrange(i, i + pat.len()) == pat
}

/// `pat` occurs somewhere in `s` (the empty pattern occurs in every string).
pub open spec fn contains_seq(s: Seq<char>, pat: Seq<char>) -> bool {
    exists|i: int| #[trigger] occurs_at(s, pat, i)
}

/// Checks whether `pat` occurs in `s` at position `i`.
pub fn matches_at(s: &Vec<char>, pat: &Vec<char>, i: usize) -> (r: bool)
    ensures
        r == occurs_at(s@, pat@, i as int),
{
    if i > s.len() || pat.len() > s.len() - i {
        return false;
    }
    let mut k: usize = 0;
    while k < pat.len()
        invariant
            i + pat.len() <= s.len(),
            k <= pat.len(),
            forall|j: int| 0 <= j < k ==> s@[i + j] == pat@[j],
        decreases pat.len() - k,
    {
        if s[i + k] != pat[k] {
            assert(s@.subrange(i as int, i + pat.len())[k as int] != pat@[k as int]);
            return false;
        }
        k = k + 1;
    }
    assert(s@.subrange(i as int, i + pat.len()) =~= pat@);
    true
}

/// Checks whether `pre` is a prefix of `s`.
pub fn starts_with(s: &Vec<char>, pre: &Vec<char>) -> (r: bool)
    ensures
        r == is_prefix(pre@, s@),
{
    matches_at(s, pre, 0)
}

/// Checks whether `suf` is a suffix of `s`.
pub fn ends_with(s: &Vec<char>, suf: &Vec<char>) -> (r: bool)
    ensures
        r == is_suffix(suf@, s@),
{
    if suf.len() > s.len() {
        return false;
    }
    matches_at(s, suf, s.len() - suf.len())
}

/// Checks whether `pat` occurs in `s`.
pub fn contains(s: &Vec<char>, pat: &Vec<char>) -> (r: bool)
    ensures
        r == contains_seq(s@, pat@),
{
    if pat.len() > s.len() {
        assert forall|i: int| !occurs_at(s@, pat@, i) by {}
        return false;
    }
    let last = s.len() - pat.len();
    let mut i: usize = 0;
    loop
        invariant
            last == s.len() - pat.len(),
            i <= last,
            forall|j: int| 0 <= j < i ==> !occurs_at(s@, pat@, j),
        ensures
            forall|j: int| 0 <= j <= last ==> !occurs_at(s@, pat@, j),
        decreases last - i,
    {
        if matches_at(s, pat, i) {
            return true;
        }
        if i == last {
            break;
        }
        i = i + 1;
    }
    assert forall|j: int| !occurs_at(s@, pat@, j) by {
        if 0 <= j && j <= last {
        }
    }
    false
}

/// Same characters, position by position.
pub fn chars_eq(a: &Vec<char>, b: &Vec<char>) -> (r: bool)
    ensures
        r == (a@ == b@),
{
    if a.len() != b.len() {
        return false;
    }
    let r = matches_at(a, b, 0);
    proof {
        assert(a@.subrange(0, a@.len() as int) =~= a@);
        if r {
            assert(a@ =~= b@);
        }
    }
    r
}

/// Checks whether the string `s` reads exactly as the literal `lit`.
pub fn str_is(s: &String, lit: &str) -> (r: bool)
    ensures
        r == (s@ == lit@),
{
    let a = chars_of(s.as_str());
    let b = chars_of(lit);
    chars_eq(&a, &b)
}

/// Checks whether `pat` occurs in the string `s`.
pub fn str_contains(s: &String, pat: &str) -> (r: bool)
    ensures
        r == contains_seq(s@, pat@),
{
    let a = chars_of(s.as_str());
    let b = chars_of(pat);
    contains(&a, &b)
}

/// Checks whether the string `s` starts with `pre`.
pub fn str_starts_with(s: &String, pre: &str) -> (r: bool)
    ensures
        r == is_prefix(pre@, s@),
{
    let a = chars_of(s.as_str());
    let b = chars_of(pre);
    starts_with(&a, &b)
}

/// Checks whether the string `s` ends with `suf`.
pub fn str_ends_with(s: &String, suf: &str) -> (r: bool)
    ensures
        r == is_suffix(suf@, s@),
{
    let a = chars_of(s.as_str());
    let b = chars_of(suf);
    ends_with(&a, &b)
}

/// A fresh `String` holding the characters of a literal.
pub fn owned(lit: &str) -> (r: String)
    ensures
        r@ == lit@,
{
    let v = chars_of(lit);
    string_of(&v)
}

/// `a` followed by `b`.
pub fn concat(a: &String, b: &String) -> (r: String)
    ensures
        r@ == a@ + b@,
{
    let mut va = chars_of(a.as_str());
    let vb = chars_of(b.as_str());
    let mut i: usize = 0;
    let ghost a0 = va@;
    while i < vb.len()
        invariant
            i <= vb.len(),
            va@ == a0 + vb@.take(i as int),
        decreases vb.len() - i,
    {
        va.push(vb[i]);
        i = i + 1;
        assert(va@ =~= a0 + vb@.take(i as int));
    }
    assert(vb@.take(vb.len() as int) =~= vb@);
    string_of(&va)
}

/// `s` is not the empty string.
pub fn non_empty(s: &String) -> (r: bool)
    ensures
        r == (s@.len() > 0),
{
    let v = chars_of(s.as_str());
    v.len() > 0
}


/// `s` without leading and trailing `c` characters.
pub open spec fn trim_char(s: Seq<char>, c: char) -> Seq<char>
    decreases s.len(),
{
    if s.len() > 0 && s[0] == c {
        trim_char(s.drop_first(), c)
    } else if s.len() > 0 && s.last() == c {
        trim_char(s.drop_last(), c)
    } else {
        s
    }
}

/// Removes leading and trailing `c` characters (`str::trim_matches(c)`).
pub fn trim_matches_char(s: &String, c: char) -> (r: String)
    ensures
        r@ == trim_char(s@, c),
{
    let v = chars_of(s.as_str());
    let mut lo: usize = 0;
    let mut hi: usize = v.len();
    assert(v@.subrange(0, v@.len() as int) =~= v@);
    while lo < hi && v[lo] == c
        invariant
            lo <= hi == v.len(),
            trim_char(v@, c) == trim_char(v@.subrange(lo as int, hi as int), c),
        decreases hi - lo,
    {
        assert(v@.subrange(lo as int, hi as int).drop_first() =~= v@.subrange(lo + 1, hi as int));
        lo = lo + 1;
    }
    while lo < hi && v[hi - 1] == c
        invariant
            lo <= hi <= v.len(),
            lo < hi ==> v@[lo as int] != c,
            trim_char(v@, c) == trim_char(v@.subrange(lo as int, hi as int), c),
        decreases hi - lo,
    {
        assert(v@.subrange(lo as int, hi as int).drop_last() =~= v@.subrange(lo as int, hi - 1));
        lo = lo;
        hi = hi - 1;
    }
    let mut out: Vec<char> = Vec::new();
    let mut i: usize = lo;
    while i < hi
        invariant
            lo <= i <= hi <= v.len(),
            out@ == v@.subrange(lo as int, i as int),
        decreases hi - i,
    {
        out.push(v[i]);
        i = i + 1;
        assert(out@ =~= v@.subrange(lo as int, i as int));
    }
    string_of(&out)
}


/// Unicode White_Space (what `char::is_whitespace` tests).
pub open spec fn is_ws(c: char) -> bool {
    ||| c == ' ' || c == '\t' || c == '\n' || c == '\u{0B}' || c == '\u{0C}' || c == '\r'
    ||| c == '\u{85}' || c == '\u{A0}' || c == '\u{1680}'
    ||| ('\u{2000}' <= c && c <= '\u{200A}')
    ||| c == '\u{2028}' || c == '\u{2029}' || c == '\u{202F}' || c == '\u{205F}' || c == '\u{3000}'
}

/// Checks `is_ws`.
pub fn ws(c: char) -> (r: bool)
    ensures
        r == is_ws(c),
{
    c == ' ' || c == '\t' || c == '\n' || c == '\u{0B}' || c == '\u{0C}' || c == '\r' || c == '\u{85}'
        || c == '\u{A0}' || c == '\u{1680}' || ('\u{2000}' <= c && c <= '\u{200A}') || c == '\u{2028}'
        || c == '\u{2029}' || c == '\u{202F}' || c == '\u{205F}' || c == '\u{3000}'
}

/// `s` without leading and trailing white space (`str::trim`).
pub open spec fn trim_ws(s: Seq<char>) -> Seq<char>
    decreases s.len(),
{
    if s.len() > 0 && is_ws(s[0]) {
        trim_ws(s.drop_first())
    } else if s.len() > 0 && is_ws(s.last()) {
        trim_ws(s.drop_last())
    } else {
        s
    }
}

/// Removes leading and trailing white space.
pub fn trim(v: &Vec<char>) -> (r: Vec<char>)
    ensures
        r@ == trim_ws(v@),
{
    let mut lo: usize = 0;
    let mut hi: usize = v.len();
    assert(v@.subrange(0, v@.len() as int) =~= v@);
    while lo < hi && ws(v[lo])
        invariant
            lo <= hi == v.len(),
            trim_ws(v@) == trim_ws(v@.subrange(lo as int, hi as int)),
        decreases hi - lo,
    {
        assert(v@.subrange(lo as int, hi as int).drop_first() =~= v@.subrange(lo + 1, hi as int));
        lo = lo + 1;
    }
    while lo < hi && ws(v[hi - 1])
        invariant
            lo <= hi <= v.len(),
            lo < hi ==> !is_ws(v@[lo as int]),
            trim_ws(v@) == trim_ws(v@.subrange(lo as int, hi as int)),
        decreases hi - lo,
    {
        assert(v@.subrange(lo as int, hi as int).drop_last() =~= v@.subrange(lo as int, hi - 1));
        hi = hi - 1;
    }
    let mut out: Vec<char> = Vec::new();
    let mut i: usize = lo;
    while i < hi
        invariant
            lo <= i <= hi <= v.len(),
            out@ == v@.subrange(lo as int, i as int),
        decreases hi - i,
    {
        out.push(v[i]);
        i = i + 1;
        assert(out@ =~= v@.subrange(lo as int, i as int));
    }
    out
}

/// `s` with every `from` replaced by `to`.
pub open spec fn replace_char(s: Seq<char>, from: char, to: char) -> Seq<char> {
    s.map_values(|c: char| if c == from { to } else { c })
}

/// Replaces every `from` by `to`.
pub fn replace_chars(v: &Vec<char>, from: char, to: char) -> (r: Vec<char>)
    ensures
        r@ == replace_char(v@, from, to),
{
    let mut out: Vec<char> = Vec::new();
    let mut i: usize = 0;
    while i < v.len()
        invariant
            i <= v.len(),
            out@ == replace_char(v@.take(i as int), from, to),
        decreases v.len() - i,
    {
        out.push(if v[i] == from {
            to
        } else {
            v[i]
        });
        i = i + 1;
        assert(out@ =~= replace_char(v@.take(i as int), from, to));
    }
    assert(v@.take(v.len() as int) =~= v@);
    out
}

/// ASCII letters folded to lower case.
pub open spec fn ascii_lower(c: char) -> char {
    if 'A' <= c && c <= 'Z' {
        ((c as u32) + 32) as char
    } else {
        c
    }
}

/// Equal ignoring ASCII case (`str::eq_ignore_ascii_case`).
pub open spec fn eq_ignore_ascii_case(a: Seq<char>, b: Seq<char>) -> bool {
    a.len() == b.len() && forall|i: int| 0 <= i < a.len() ==> ascii_lower(#[trigger] a[i]) == ascii_lower(b[i])
}

fn lower_ascii(c: char) -> (r: char)
    ensures
        r == ascii_lower(c),
{
    if 'A' <= c && c <= 'Z' {
        let r = ((c as u8) + 32) as char;
        assert(r == ((c as u32) + 32) as char);
        r
    } else {
        c
    }
}

/// Compares ignoring ASCII case.
pub fn eq_ascii_ci(a: &Vec<char>, b: &Vec<char>) -> (r: bool)
    ensures
        r == eq_ignore_ascii_case(a@, b@),
{
    if a.len() != b.len() {
        return false;
    }
    let mut i: usize = 0;
    while i < a.len()
        invariant
            i <= a.len() == b.len(),
            forall|j: int| 0 <= j < i ==> ascii_lower(#[trigger] a@[j]) == ascii_lower(b@[j]),
        decreases a.len() - i,
    {
        if lower_ascii(a[i]) != lower_ascii(b[i]) {
            return false;
        }
        i = i + 1;
    }
    true
}


/// The characters of `v` from `lo` up to `hi`.
pub fn sub_chars(v: &Vec<char>, lo: usize, hi: usize) -> (r: Vec<char>)
    requires
        lo <= hi <= v.len(),
    ensures
        r@ == v@.subrange(lo as int, hi as int),
{
    let mut out: Vec<char> = Vec::new();
    let mut i: usize = lo;
    while i < hi
        invariant
            lo <= i <= hi <= v.len(),
            out@ == v@.subrange(lo as int, i as int),
        decreases hi - i,
    {
        out.push(v[i]);
        i = i + 1;
        assert(out@ =~= v@.subrange(lo as int, i as int));
    }
    out
}

/// Character vectors by their views.
pub open spec fn chars_view(v: Seq<Vec<char>>) -> Seq<Seq<char>> {
    v.map_values(|x: Vec<char>| x@)
}

/// The pieces of `s` cut at the occurrences of `sep` found from position `i` on, the
/// current piece starting at `lo`; occurrences are taken left to right, without overlap.
pub open spec fn split_from(s: Seq<char>, sep: Seq<char>, lo: int, i: int) -> Seq<Seq<char>>
    decreases s.len() - i,
{
    if sep.len() == 0 || lo < 0 || i < lo || i + sep.len() > s.len() {
        seq![s.subrange(lo, s.len() as int)]
    } else if occurs_at(s, sep, i) {
        seq![s.subrange(lo, i)] + split_from(s, sep, i + sep.len(), i + sep.len())
    } else {
        split_from(s, sep, lo, i + 1)
    }
}

/// Cutting always leaves at least one piece.
pub proof fn lemma_split_from_nonempty(s: Seq<char>, sep: Seq<char>, lo: int, i: int)
    ensures
        split_from(s, sep, lo, i).len() >= 1,
    decreases s.len() - i,
{
    if sep.len() == 0 || lo < 0 || i < lo || i + sep.len() > s.len() {
    } else if occurs_at(s, sep, i) {
        lemma_split_from_nonempty(s, sep, i + sep.len(), i + sep.len());
    } else {
        lemma_split_from_nonempty(s, sep, lo, i + 1);
    }
}

/// `s` cut at every occurrence of `sep` (`str::split` with a string pattern); the empty
/// pattern matches before and after every character, giving an empty piece, each
/// character alone, and an empty piece.
pub open spec fn split_str(s: Seq<char>, sep: Seq<char>) -> Seq<Seq<char>> {
    if sep.len() == 0 {
        seq![Seq::<char>::empty()] + s.map_values(|c: char| seq![c]) + seq![Seq::<char>::empty()]
    } else {
        split_from(s, sep, 0, 0)
    }
}

fn split_chars(s: &Vec<char>) -> (r: Vec<Vec<char>>)
    ensures
        chars_view(r@) == seq![Seq::<char>::empty()] + s@.map_values(|c: char| seq![c]) + seq![Seq::<char>::empty()],
{
    let mut out: Vec<Vec<char>> = Vec::new();
    out.push(Vec::new());
    let mut i: usize = 0;
    while i < s.len()
        invariant
            i <= s.len(),
            chars_view(out@) == seq![Seq::<char>::empty()] + s@.take(i as int).map_values(|c: char| seq![c]),
        decreases s.len() - i,
    {
        let mut one: Vec<char> = Vec::new();
        one.push(s[i]);
        let ghost before = chars_view(out@);
        out.push(one);
        i = i + 1;
        assert(chars_view(out@) =~= seq![Seq::<char>::empty()] + s@.take(i as int).map_values(|c: char| seq![c])) by {
            assert(chars_view(out@) =~= before.push(seq![s@[i - 1]]));
            assert(s@.take(i as int).map_values(|c: char| seq![c]) =~= s@.take(i - 1).map_values(|c: char| seq![c]).push(seq![s@[i - 1]]));
        }
    }
    let ghost before = chars_view(out@);
    out.push(Vec::new());
    assert(s@.take(s.len() as int) =~= s@);
    assert(chars_view(out@) =~= before.push(Seq::<char>::empty()));
    out
}

/// Cuts `s` at every occurrence of `sep` (see `split_str`).
pub fn split_by(s: &Vec<char>, sep: &Vec<char>) -> (r: Vec<Vec<char>>)
    ensures
        chars_view(r@) == split_str(s@, sep@),
{
    if sep.len() == 0 {
        return split_chars(s);
    }
    let mut out: Vec<Vec<char>> = Vec::new();
    let mut lo: usize = 0;
    let mut i: usize = 0;
    while i <= s.len() && sep.len() <= s.len() - i
        invariant
            lo <= i <= s.len(),
            sep.len() > 0,
            chars_view(out@) + split_from(s@, sep@, lo as int, i as int) == split_str(s@, sep@),
        decreases s.len() - i,
    {
        if matches_at(s, sep, i) {
            let piece = sub_chars(s, lo, i);
            let ghost before = chars_view(out@);
            let ghost rest = split_from(s@, sep@, (i + sep.len()) as int, (i + sep.len()) as int);
            assert(split_from(s@, sep@, lo as int, i as int) == seq![piece@] + rest);
            out.push(piece);
            assert(chars_view(out@) =~= before.push(piece@));
            assert(before.push(piece@) + rest =~= before + (seq![piece@] + rest));
            lo = i + sep.len();
            i = lo;
        } else {
            assert(split_from(s@, sep@, lo as int, i as int) == split_from(s@, sep@, lo as int, i + 1));
            i = i + 1;
        }
    }
    let piece = sub_chars(s, lo, s.len());
    let ghost before = chars_view(out@);
    assert(split_from(s@, sep@, lo as int, i as int) == seq![piece@]);
    out.push(piece);
    assert(chars_view(out@) =~= before.push(piece@));
    assert(before.push(piece@) =~= before + seq![piece@]);
    out
}

/// The pieces joined, with `sep` between neighbours (`[T]::join`).
pub open spec fn join_with(p: Seq<Seq<char>>, sep: Seq<char>) -> Seq<char>
    decreases p.len(),
{
    if p.len() == 0 {
        Seq::empty()
    } else if p.len() == 1 {
        p[0]
    } else {
        join_with(p.drop_last(), sep) + sep + p.last()
    }
}

/// Joins the pieces with `sep` between neighbours.
pub fn join_by(p: &Vec<Vec<char>>, sep: &Vec<char>) -> (r: Vec<char>)
    ensures
        r@ == join_with(chars_view(p@), sep@),
{
    let mut out: Vec<char> = Vec::new();
    let mut i: usize = 0;
    while i < p.len()
        invariant
            i <= p.len(),
            out@ == join_with(chars_view(p@).take(i as int), sep@),
        decreases p.len() - i,
    {
        let ghost o0 = out@;
        if i > 0 {
            let mut k: usize = 0;
            while k < sep.len()
                invariant
                    k <= sep.len(),
                    out@ == o0 + sep@.take(k as int),
                decreases sep.len() - k,
            {
                out.push(sep[k]);
                k = k + 1;
                assert(out@ =~= o0 + sep@.take(k as int));
            }
            assert(sep@.take(sep.len() as int) =~= sep@);
        }
        let ghost o1 = out@;
        let piece = &p[i];
        let mut k: usize = 0;
        while k < piece.len()
            invariant
                k <= piece.len(),
                out@ == o1 + piece@.take(k as int),
            decreases piece.len() - k,
        {
            out.push(piece[k]);
            k = k + 1;
            assert(out@ =~= o1 + piece@.take(k as int));
        }
        assert(piece@.take(piece.len() as int) =~= piece@);
        let ghost q = chars_view(p@).take(i + 1);
        assert(q.drop_last() =~= chars_view(p@).take(i as int));
        assert(q.last() == piece@);
        if i == 0 {
            assert(o0 =~= Seq::<char>::empty());
            assert(out@ =~= piece@);
        }
        i = i + 1;
    }
    assert(chars_view(p@).take(p.len() as int) =~= chars_view(p@));
    out
}

/// White-space runs collapsed to one space, leading and trailing white space dropped
/// (what `split_whitespace` followed by `join(" ")` gives).
pub open spec fn squash_ws(s: Seq<char>) -> Seq<char>
    decreases s.len(),
{
    if s.len() == 0 {
        Seq::empty()
    } else {
        let t = squash_ws(s.drop_last());
        let c = s.last();
        if is_ws(c) {
            t
        } else if s.len() >= 2 && !is_ws(s[s.len() - 2]) {
            t.push(c)
        } else if t.len() == 0 {
            t.push(c)
        } else {
            t.push(' ').push(c)
        }
    }
}

/// Collapses white space (see `squash_ws`).
pub fn squash(v: &Vec<char>) -> (r: Vec<char>)
    ensures
        r@ == squash_ws(v@),
{
    let mut out: Vec<char> = Vec::new();
    let mut i: usize = 0;
    while i < v.len()
        invariant
            i <= v.len(),
            out@ == squash_ws(v@.take(i as int)),
        decreases v.len() - i,
    {
        let c = v[i];
        let ghost t = v@.take(i + 1);
        assert(t.drop_last() =~= v@.take(i as int));
        assert(t.last() == c);
        if ws(c) {
        } else if i >= 1 && !ws(v[i - 1]) {
            assert(t[t.len() - 2] == v@[i - 1]);
            out.push(c);
        } else if out.len() == 0 {
            out.push(c);
        } else {
            out.push(' ');
            out.push(c);
        }
        i = i + 1;
    }
    assert(v@.take(v.len() as int) =~= v@);
    out
}

/// A copy of `s` without leading and trailing white space.
pub fn trim_string(s: &String) -> (r: String)
    ensures
        r@ == trim_ws(s@),
{
    let v = chars_of(s.as_str());
    let t = trim(&v);
    string_of(&t)
}

} // verus!
