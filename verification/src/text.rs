//! Character-sequence helpers shared by the parsers and renderers.
use vstd::prelude::*;

verus! {

// ---------------------------------------------------------------------------
// Specifications
// ---------------------------------------------------------------------------

/// Unicode `White_Space`, the set that `char::is_whitespace` tests.
pub open spec fn is_ws(c: char) -> bool {
    let u = c as u32;
    ||| u == 0x20
    ||| (0x09 <= u && u <= 0x0d)
    ||| u == 0x85
    ||| u == 0xa0
    ||| u == 0x1680
    ||| (0x2000 <= u && u <= 0x200a)
    ||| u == 0x2028
    ||| u == 0x2029
    ||| u == 0x202f
    ||| u == 0x205f
    ||| u == 0x3000
}

/// `s` without its leading whitespace.
pub open spec fn trim_start(s: Seq<char>) -> Seq<char>
    decreases s.len(),
{
    if s.len() > 0 && is_ws(s[0]) {
        trim_start(s.drop_first())
    } else {
        s
    }
}

/// `s` without its trailing whitespace.
pub open spec fn trim_end(s: Seq<char>) -> Seq<char>
    decreases s.len(),
{
    if s.len() > 0 && is_ws(s.last()) {
        trim_end(s.drop_last())
    } else {
        s
    }
}

/// `s` without leading and trailing whitespace (`str::trim`).
pub open spec fn trim(s: Seq<char>) -> Seq<char> {
    trim_end(trim_start(s))
}

/// `pat` occurs in `s` at position `i`.
pub open spec fn matches_at(s: Seq<char>, i: int, pat: Seq<char>) -> bool {
    0 <= i && i + pat.len() <= s.len() && s.subrange(i, i + pat.len()) == pat
}

/// The first position at or after `i` where `pat` occurs in `s`.
pub open spec fn find_from(s: Seq<char>, pat: Seq<char>, i: int) -> Option<int>
    decreases s.len() + 1 - i,
{
    if i < 0 || i + pat.len() > s.len() {
        None
    } else if matches_at(s, i, pat) {
        Some(i)
    } else {
        find_from(s, pat, i + 1)
    }
}

/// The first position where `pat` occurs in `s`.
pub open spec fn find(s: Seq<char>, pat: Seq<char>) -> Option<int> {
    find_from(s, pat, 0)
}

/// `pat` occurs somewhere in `s` (`str::contains`).
pub open spec fn contains(s: Seq<char>, pat: Seq<char>) -> bool {
    find(s, pat) is Some
}

/// Splits `s` around the first occurrence of `pat` (`str::split_once`).
pub open spec fn split_once(s: Seq<char>, pat: Seq<char>) -> Option<(Seq<char>, Seq<char>)> {
    match find(s, pat) {
        Some(i) => Some((s.take(i), s.skip(i + pat.len()))),
        None => None,
    }
}

/// A line as `str::lines` yields it: a `\r` before the newline is dropped.
pub open spec fn strip_cr(line: Seq<char>) -> Seq<char> {
    if line.len() > 0 && line.last() == '\r' {
        line.drop_last()
    } else {
        line
    }
}

/// The lines of `cur + s`, where `cur` is the part of the current line already read.
pub open spec fn lines_rec(s: Seq<char>, cur: Seq<char>) -> Seq<Seq<char>>
    decreases s.len(),
{
    if s.len() == 0 {
        if cur.len() == 0 {
            seq![]
        } else {
            seq![cur]
        }
    } else if s[0] == '\n' {
        seq![strip_cr(cur)] + lines_rec(s.drop_first(), seq![])
    } else {
        lines_rec(s.drop_first(), cur.push(s[0]))
    }
}

/// The lines of `s` (`str::lines`): split at `\n`, a final newline ends the last line.
pub open spec fn lines(s: Seq<char>) -> Seq<Seq<char>> {
    lines_rec(s, seq![])
}

/// The parts of `s` between occurrences of `sep` (`str::split` with a char).
pub open spec fn split_rec(s: Seq<char>, sep: char, cur: Seq<char>) -> Seq<Seq<char>>
    decreases s.len(),
{
    if s.len() == 0 {
        seq![cur]
    } else if s[0] == sep {
        seq![cur] + split_rec(s.drop_first(), sep, seq![])
    } else {
        split_rec(s.drop_first(), sep, cur.push(s[0]))
    }
}

/// `str::split` on one character: always at least one part.
pub open spec fn split(s: Seq<char>, sep: char) -> Seq<Seq<char>> {
    split_rec(s, sep, seq![])
}

/// The parts joined with `sep` between them (`[..].join(sep)`).
pub open spec fn join(parts: Seq<Seq<char>>, sep: Seq<char>) -> Seq<char>
    decreases parts.len(),
{
    if parts.len() == 0 {
        seq![]
    } else if parts.len() == 1 {
        parts[0]
    } else {
        join(parts.drop_last(), sep) + sep + parts.last()
    }
}

/// `s` with every non-overlapping occurrence of `pat` (left to right, from `i`) replaced.
pub open spec fn replace_from(s: Seq<char>, pat: Seq<char>, rep: Seq<char>, i: int) -> Seq<char>
    decreases s.len() - i,
{
    if i < 0 || i >= s.len() {
        seq![]
    } else if pat.len() > 0 && matches_at(s, i, pat) {
        rep + replace_from(s, pat, rep, i + pat.len())
    } else {
        seq![s[i]] + replace_from(s, pat, rep, i + 1)
    }
}

/// `rep` before each character of `s` and once more at its end: what `str::replace` makes of an
/// empty pattern.
pub open spec fn interleave(s: Seq<char>, rep: Seq<char>) -> Seq<char>
    decreases s.len(),
{
    if s.len() == 0 {
        rep
    } else {
        rep + seq![s[0]] + interleave(s.drop_first(), rep)
    }
}

/// `str::replace`: every non-overlapping occurrence of `pat`, left to right, replaced by `rep`;
/// an empty pattern matches before each character and at the end.
pub open spec fn replace(s: Seq<char>, pat: Seq<char>, rep: Seq<char>) -> Seq<char> {
    if pat.len() == 0 {
        interleave(s, rep)
    } else {
        replace_from(s, pat, rep, 0)
    }
}

/// The digit character for `d` in base 16, lower case (`0`-`9`, `a`-`f`).
pub open spec fn hex_digit(d: nat) -> char {
    if d < 10 {
        (('0' as u32) + d) as char
    } else {
        (('a' as u32) + (d - 10)) as char
    }
}

/// The decimal representation of `n`, without leading zeros.
pub open spec fn dec(n: nat) -> Seq<char>
    decreases n,
{
    if n < 10 {
        seq![hex_digit(n)]
    } else {
        dec(n / 10).push(hex_digit(n % 10))
    }
}

/// The lower-case hexadecimal representation of `n`, without leading zeros (`{:x}`).
pub open spec fn hex(n: nat) -> Seq<char>
    decreases n,
{
    if n < 16 {
        seq![hex_digit(n)]
    } else {
        hex(n / 16).push(hex_digit(n % 16))
    }
}

/// Two lower-case hex digits per byte (`{:02x}` for each byte).
pub open spec fn hex_bytes(b: Seq<u8>) -> Seq<char>
    decreases b.len(),
{
    if b.len() == 0 {
        seq![]
    } else {
        hex_bytes(b.drop_last()) + seq![hex_digit((b.last() / 16) as nat), hex_digit((b.last() % 16) as nat)]
    }
}

// ---------------------------------------------------------------------------
// Executable helpers
// ---------------------------------------------------------------------------

/// Appends one character to a `String` (std `String::push`).
#[verifier::external_body]
pub(crate) fn push_char(s: &mut String, c: char)
    ensures
        final(s)@ == old(s)@.push(c),
{
    s.push(c);
}

/// The characters of a string slice, in order.
pub fn chars_of(s: &str) -> (v: Vec<char>)
    ensures
        v@ == s@,
{
    let mut v: Vec<char> = Vec::new();
    for c in it: s.chars()
        invariant
            v@ == it.seq().take(it.index() as int),
            it.seq() == s@,
    {
        v.push(c);
    }
    v
}

/// A `String` holding exactly the given characters.
pub fn string_of(v: &[char]) -> (s: String)
    ensures
        s@ == v@,
{
    let mut s = String::new();
    let mut i: usize = 0;
    while i < v.len()
        invariant
            i <= v.len(),
            s@ == v@.take(i as int),
        decreases v.len() - i,
    {
        push_char(&mut s, v[i]);
        assert(v@.take(i + 1) =~= v@.take(i as int).push(v@[i as int]));
        i = i + 1;
    }
    assert(v@.take(v@.len() as int) =~= v@);
    s
}

/// Appends `t` to `v`.
pub fn extend(v: &mut Vec<char>, t: &[char])
    ensures
        final(v)@ == old(v)@ + t@,
{
    let ghost v0 = v@;
    let mut i: usize = 0;
    while i < t.len()
        invariant
            i <= t.len(),
            v@ == v0 + t@.take(i as int),
        decreases t.len() - i,
    {
        v.push(t[i]);
        assert(t@.take(i + 1) =~= t@.take(i as int).push(t@[i as int]));
        i = i + 1;
    }
    assert(t@.take(t@.len() as int) =~= t@);
}

/// Appends the characters of `t` to `v`.
pub fn extend_str(v: &mut Vec<char>, t: &str)
    ensures
        final(v)@ == old(v)@ + t@,
{
    let c = chars_of(t);
    extend(v, &c);
}

/// The characters `v[lo..hi]`.
pub fn slice_chars(v: &[char], lo: usize, hi: usize) -> (r: Vec<char>)
    requires
        lo <= hi <= v.len(),
    ensures
        r@ == v@.subrange(lo as int, hi as int),
{
    let mut r: Vec<char> = Vec::new();
    let mut i = lo;
    while i < hi
        invariant
            lo <= i <= hi <= v.len(),
            r@ == v@.subrange(lo as int, i as int),
        decreases hi - i,
    {
        r.push(v[i]);
        assert(v@.subrange(lo as int, i + 1) =~= v@.subrange(lo as int, i as int).push(v@[i as int]));
        i = i + 1;
    }
    r
}

/// Equality of two character sequences.
pub fn eq_chars(a: &[char], b: &[char]) -> (r: bool)
    ensures
        r == (a@ == b@),
{
    if a.len() != b.len() {
        return false;
    }
    let mut i: usize = 0;
    while i < a.len()
        invariant
            a.len() == b.len(),
            i <= a.len(),
            forall|k: int| 0 <= k < i ==> a@[k] == b@[k],
        decreases a.len() - i,
    {
        if a[i] != b[i] {
            return false;
        }
        i = i + 1;
    }
    assert(a@ =~= b@);
    true
}

/// Equality of a character sequence and a string slice.
pub fn eq_str(a: &[char], b: &str) -> (r: bool)
    ensures
        r == (a@ == b@),
{
    let bv = chars_of(b);
    eq_chars(a, &bv)
}

/// `c` is whitespace (`char::is_whitespace`).
pub fn is_ws_char(c: char) -> (r: bool)
    ensures
        r == is_ws(c),
{
    let u = c as u32;
    u == 0x20 || (0x09 <= u && u <= 0x0d) || u == 0x85 || u == 0xa0 || u == 0x1680 || (0x2000
        <= u && u <= 0x200a) || u == 0x2028 || u == 0x2029 || u == 0x202f || u == 0x205f || u
        == 0x3000
}

proof fn lemma_trim_start_skip(s: Seq<char>, i: int)
    requires
        0 <= i <= s.len(),
        forall|k: int| 0 <= k < i ==> is_ws(#[trigger] s[k]),
    ensures
        trim_start(s) == trim_start(s.skip(i)),
    decreases i,
{
    if i > 0 {
        assert(s.skip(1) =~= s.drop_first());
        lemma_trim_start_skip(s.drop_first(), i - 1);
        assert(s.drop_first().skip(i - 1) =~= s.skip(i));
    } else {
        assert(s.skip(0) =~= s);
    }
}

proof fn lemma_trim_end_take(s: Seq<char>, j: int)
    requires
        0 <= j <= s.len(),
        forall|k: int| j <= k < s.len() ==> is_ws(#[trigger] s[k]),
    ensures
        trim_end(s) == trim_end(s.take(j)),
    decreases s.len() - j,
{
    if j < s.len() {
        assert(s.take(s.len() - 1) =~= s.drop_last());
        lemma_trim_end_take(s.drop_last(), j);
        assert(s.drop_last().take(j) =~= s.take(j));
    } else {
        assert(s.take(j) =~= s);
    }
}

/// `v` without leading and trailing whitespace (`str::trim`).
pub fn trim_chars(v: &[char]) -> (r: Vec<char>)
    ensures
        r@ == trim(v@),
{
    let mut i: usize = 0;
    while i < v.len() && is_ws_char(v[i])
        invariant
            i <= v.len(),
            forall|k: int| 0 <= k < i ==> is_ws(#[trigger] v@[k]),
        decreases v.len() - i,
    {
        i = i + 1;
    }
    proof {
        lemma_trim_start_skip(v@, i as int);
    }
    let mut j: usize = v.len();
    while j > i && is_ws_char(v[j - 1])
        invariant
            i <= j <= v.len(),
            forall|k: int| j <= k < v.len() ==> is_ws(#[trigger] v@[k]),
        decreases j,
    {
        j = j - 1;
    }
    let r = slice_chars(v, i, j);
    proof {
        let t = v@.skip(i as int);
        assert(trim_start(t) == t);
        lemma_trim_end_take(t, j - i);
        assert(t.take(j - i) =~= r@);
        assert(trim_end(r@) == r@);
    }
    r
}

/// Trims a string slice, as characters.
pub fn trim_str(s: &str) -> (r: Vec<char>)
    ensures
        r@ == trim(s@),
{
    let v = chars_of(s);
    trim_chars(&v)
}

/// The first position at or after `from` where `pat` occurs in `v`.
pub fn find_chars(v: &[char], pat: &[char], from: usize) -> (r: Option<usize>)
    requires
        from <= v.len(),
    ensures
        r matches Some(i) ==> find_from(v@, pat@, from as int) == Some(i as int),
        r is None ==> find_from(v@, pat@, from as int) is None,
{
    if pat.len() > v.len() {
        return None;
    }
    let last = v.len() - pat.len();
    let mut i = from;
    while i <= last
        invariant
            from <= i,
            last + pat.len() == v.len(),
            find_from(v@, pat@, from as int) == find_from(v@, pat@, i as int),
        decreases last + 1 - i,
    {
        let mut j: usize = 0;
        let mut ok = true;
        while j < pat.len()
            invariant
                i <= last,
                last + pat.len() == v.len(),
                j <= pat.len(),
                ok ==> forall|k: int| 0 <= k < j ==> v@[i + k] == pat@[k],
                !ok ==> !matches_at(v@, i as int, pat@),
            decreases pat.len() - j,
        {
            if v[i + j] != pat[j] {
                ok = false;
                assert(v@.subrange(i as int, i + pat.len())[j as int] != pat@[j as int]);
            }
            j = j + 1;
        }
        if ok {
            assert(v@.subrange(i as int, i + pat.len()) =~= pat@);
            return Some(i);
        }
        if i == last {
            return None;
        }
        i = i + 1;
    }
    None
}

/// Does `pat` occur in `v`?
pub fn contains_chars(v: &[char], pat: &[char]) -> (r: bool)
    ensures
        r == contains(v@, pat@),
{
    find_chars(v, pat, 0).is_some()
}

/// Splits `v` around the first occurrence of `pat`.
pub fn split_once_chars(v: &[char], pat: &[char]) -> (r: Option<(Vec<char>, Vec<char>)>)
    ensures
        r matches Some(p) ==> split_once(v@, pat@) == Some((p.0@, p.1@)),
        r is None ==> split_once(v@, pat@) is None,
{
    match find_chars(v, pat, 0) {
        Some(i) => {
            proof {
                assert(matches_at(v@, i as int, pat@)) by {
                    lemma_find_from_matches(v@, pat@, 0);
                }
            }
            let a = slice_chars(v, 0, i);
            let b = slice_chars(v, i + pat.len(), v.len());
            assert(a@ =~= v@.take(i as int));
            assert(b@ =~= v@.skip(i + pat.len()));
            Some((a, b))
        },
        None => None,
    }
}

/// A result of `find_from` is a match.
pub proof fn lemma_find_from_matches(s: Seq<char>, pat: Seq<char>, i: int)
    ensures
        find_from(s, pat, i) matches Some(j) ==> i <= j && matches_at(s, j, pat),
    decreases s.len() + 1 - i,
{
    if i < 0 || i + pat.len() > s.len() {
    } else if matches_at(s, i, pat) {
    } else {
        lemma_find_from_matches(s, pat, i + 1);
    }
}

/// No match before the result of `find_from`.
pub proof fn lemma_find_from_first(s: Seq<char>, pat: Seq<char>, i: int, k: int)
    requires
        i <= k,
        matches_at(s, k, pat),
        0 <= i,
    ensures
        find_from(s, pat, i) matches Some(j) && j <= k,
    decreases k - i,
{
    if matches_at(s, i, pat) {
    } else {
        lemma_find_from_first(s, pat, i + 1, k);
    }
}

/// The lines of `v` (`str::lines`).
pub fn lines_of(v: &[char]) -> (r: Vec<Vec<char>>)
    ensures
        r@.len() == lines(v@).len(),
        forall|k: int| 0 <= k < r@.len() ==> #[trigger] r@[k]@ == lines(v@)[k],
{
    let mut out: Vec<Vec<char>> = Vec::new();
    let mut cur: Vec<char> = Vec::new();
    let mut i: usize = 0;
    let ghost outv: Seq<Seq<char>> = seq![];
    assert(v@.skip(0) =~= v@);
    assert(outv + lines_rec(v@.skip(0), cur@) =~= lines_rec(v@, seq![]));
    while i < v.len()
        invariant
            i <= v.len(),
            outv.len() == out@.len(),
            forall|k: int| 0 <= k < out@.len() ==> #[trigger] out@[k]@ == outv[k],
            lines(v@) == outv + lines_rec(v@.skip(i as int), cur@),
        decreases v.len() - i,
    {
        let ghost rest = v@.skip(i as int);
        assert(rest.drop_first() =~= v@.skip(i + 1));
        if v[i] == '\n' {
            let mut line = cur;
            if line.len() > 0 && line[line.len() - 1] == '\r' {
                line.pop();
            }
            proof {
                assert(line@ == strip_cr(cur@));
                assert(lines_rec(rest, cur@) == seq![strip_cr(cur@)] + lines_rec(rest.drop_first(), seq![]));
                outv = outv.push(line@);
                assert(outv =~= (outv.drop_last()) + seq![strip_cr(cur@)]);
            }
            out.push(line);
            cur = Vec::new();
            assert(cur@ =~= Seq::<char>::empty());
        } else {
            proof {
                assert(lines_rec(rest, cur@) == lines_rec(rest.drop_first(), cur@.push(v@[i as int])));
            }
            cur.push(v[i]);
        }
        i = i + 1;
    }
    assert(v@.skip(i as int).len() == 0);
    if cur.len() > 0 {
        proof {
            outv = outv.push(cur@);
        }
        out.push(cur);
    } else {
        assert(outv + Seq::<Seq<char>>::empty() =~= outv);
    }
    out
}


/// The parts of `v` between occurrences of `sep` (`str::split` with one character).
pub fn split_chars(v: &[char], sep: char) -> (r: Vec<Vec<char>>)
    ensures
        r@.len() == split(v@, sep).len(),
        forall|k: int| 0 <= k < r@.len() ==> #[trigger] r@[k]@ == split(v@, sep)[k],
{
    let mut out: Vec<Vec<char>> = Vec::new();
    let mut cur: Vec<char> = Vec::new();
    let mut i: usize = 0;
    let ghost outv: Seq<Seq<char>> = seq![];
    assert(v@.skip(0) =~= v@);
    assert(outv + split_rec(v@.skip(0), sep, cur@) =~= split_rec(v@, sep, seq![]));
    while i < v.len()
        invariant
            i <= v.len(),
            outv.len() == out@.len(),
            forall|k: int| 0 <= k < out@.len() ==> #[trigger] out@[k]@ == outv[k],
            split(v@, sep) == outv + split_rec(v@.skip(i as int), sep, cur@),
        decreases v.len() - i,
    {
        let ghost rest = v@.skip(i as int);
        assert(rest.drop_first() =~= v@.skip(i + 1));
        if v[i] == sep {
            proof {
                assert(split_rec(rest, sep, cur@) == seq![cur@] + split_rec(rest.drop_first(), sep, seq![]));
                outv = outv.push(cur@);
                assert(outv =~= outv.drop_last() + seq![cur@]);
            }
            out.push(cur);
            cur = Vec::new();
            assert(cur@ =~= Seq::<char>::empty());
        } else {
            proof {
                assert(split_rec(rest, sep, cur@) == split_rec(rest.drop_first(), sep, cur@.push(v@[i as int])));
            }
            cur.push(v[i]);
        }
        i = i + 1;
    }
    assert(v@.skip(i as int).len() == 0);
    proof {
        outv = outv.push(cur@);
    }
    out.push(cur);
    out
}

/// Does `pat` occur in `v` at position `i`?
pub fn matches_at_chars(v: &[char], i: usize, pat: &[char]) -> (r: bool)
    ensures
        r == matches_at(v@, i as int, pat@),
{
    if i > v.len() || pat.len() > v.len() - i {
        return false;
    }
    let mut j: usize = 0;
    while j < pat.len()
        invariant
            i + pat.len() <= v.len(),
            j <= pat.len(),
            forall|k: int| 0 <= k < j ==> v@[i + k] == pat@[k],
        decreases pat.len() - j,
    {
        if v[i + j] != pat[j] {
            assert(v@.subrange(i as int, i + pat.len())[j as int] != pat@[j as int]);
            return false;
        }
        j = j + 1;
    }
    assert(v@.subrange(i as int, i + pat.len()) =~= pat@);
    true
}

/// `rep` before each character of `v` and at its end (see `interleave`).
fn interleave_chars(v: &[char], rep: &[char]) -> (r: Vec<char>)
    ensures
        r@ == interleave(v@, rep@),
{
    let mut out: Vec<char> = Vec::new();
    let mut i: usize = 0;
    assert(v@.skip(0) =~= v@);
    assert(out@ + interleave(v@.skip(0), rep@) =~= interleave(v@, rep@));
    while i < v.len()
        invariant
            i <= v.len(),
            interleave(v@, rep@) == out@ + interleave(v@.skip(i as int), rep@),
        decreases v.len() - i,
    {
        let ghost before = out@;
        let ghost rest = v@.skip(i as int);
        extend(&mut out, rep);
        out.push(v[i]);
        assert(rest.drop_first() =~= v@.skip(i + 1));
        assert(rest[0] == v@[i as int]);
        assert(out@ + interleave(v@.skip(i + 1), rep@) =~= before + (rep@ + seq![rest[0]] + interleave(rest.drop_first(), rep@)));
        i = i + 1;
    }
    assert(v@.skip(i as int).len() == 0);
    extend(&mut out, rep);
    out
}

/// `v` with every non-overlapping occurrence of `pat` replaced by `rep` (`str::replace`).
pub fn replace_chars(v: &[char], pat: &[char], rep: &[char]) -> (r: Vec<char>)
    ensures
        r@ == replace(v@, pat@, rep@),
{
    if pat.len() == 0 {
        assert(v@.skip(0) =~= v@);
        return interleave_chars(v, rep);
    }
    let mut out: Vec<char> = Vec::new();
    let mut i: usize = 0;
    while i < v.len()
        invariant
            i <= v.len(),
            pat@.len() > 0,
            replace(v@, pat@, rep@) == out@ + replace_from(v@, pat@, rep@, i as int),
        decreases v.len() - i,
    {
        if matches_at_chars(v, i, pat) {
            let ghost before = out@;
            extend(&mut out, rep);
            assert(out@ + replace_from(v@, pat@, rep@, i + pat.len()) =~= before + (rep@ + replace_from(v@, pat@, rep@, i + pat.len())));
            i = i + pat.len();
        } else {
            let ghost before = out@;
            out.push(v[i]);
            assert(out@ + replace_from(v@, pat@, rep@, i + 1) =~= before + (seq![v@[i as int]] + replace_from(v@, pat@, rep@, i + 1)));
            i = i + 1;
        }
    }
    assert(out@ + replace_from(v@, pat@, rep@, i as int) =~= out@);
    out
}

/// The parts joined with `sep` between them.
pub fn join_chars(parts: &Vec<Vec<char>>, sep: &[char]) -> (r: Vec<char>)
    ensures
        r@ == join(parts@.map_values(|p: Vec<char>| p@), sep@),
{
    let ghost pv = parts@.map_values(|p: Vec<char>| p@);
    let mut out: Vec<char> = Vec::new();
    let mut i: usize = 0;
    while i < parts.len()
        invariant
            i <= parts@.len(),
            pv == parts@.map_values(|p: Vec<char>| p@),
            out@ == join(pv.take(i as int), sep@),
        decreases parts@.len() - i,
    {
        if i > 0 {
            extend(&mut out, sep);
        }
        extend(&mut out, &parts[i]);
        proof {
            let t = pv.take(i + 1);
            assert(t.drop_last() =~= pv.take(i as int));
            assert(t.last() == parts@[i as int]@);
            if i == 0 {
                assert(out@ =~= join(t, sep@));
            }
        }
        i = i + 1;
    }
    assert(pv.take(parts@.len() as int) =~= pv);
    out
}

/// `s` without its trailing characters equal to `c` (`str::trim_end_matches` with a char).
pub open spec fn trim_end_char(s: Seq<char>, c: char) -> Seq<char>
    decreases s.len(),
{
    if s.len() > 0 && s.last() == c {
        trim_end_char(s.drop_last(), c)
    } else {
        s
    }
}

/// Trimming trailing `c`s keeps every position up to one that holds another character.
pub proof fn lemma_trim_end_char_keeps(s: Seq<char>, c: char, k: int)
    requires
        0 <= k < s.len(),
        s[k] != c,
    ensures
        trim_end_char(s, c).len() > k,
    decreases s.len(),
{
    if s.last() == c {
        assert(k < s.len() - 1);
        assert(s.drop_last()[k] == s[k]);
        lemma_trim_end_char_keeps(s.drop_last(), c, k);
    }
}

/// `v` without its trailing characters equal to `c`.
pub fn trim_end_char_chars(v: &[char], c: char) -> (r: Vec<char>)
    ensures
        r@ == trim_end_char(v@, c),
{
    let mut end = v.len();
    assert(v@.take(end as int) =~= v@);
    while end > 0 && v[end - 1] == c
        invariant
            end <= v.len(),
            trim_end_char(v@, c) == trim_end_char(v@.take(end as int), c),
        decreases end,
    {
        assert(v@.take(end as int).drop_last() =~= v@.take(end - 1));
        end = end - 1;
    }
    slice_chars(v, 0, end)
}


fn digit_char(d: u64) -> (c: char)
    requires
        d < 16,
    ensures
        c == hex_digit(d as nat),
{
    if d < 10 {
        let c = ((0x30 + d) as u8) as char;
        assert(((0x30 + d) as u8) as char == ((('0' as u32) + d) as char));
        c
    } else {
        let c = ((0x61 + (d - 10)) as u8) as char;
        assert(((0x61 + (d - 10)) as u8) as char == ((('a' as u32) + (d - 10)) as char));
        c
    }
}

/// Appends the decimal digits of `n`.
pub fn push_dec(out: &mut Vec<char>, n: u64)
    ensures
        final(out)@ == old(out)@ + dec(n as nat),
    decreases n,
{
    if n >= 10 {
        push_dec(out, n / 10);
        out.push(digit_char(n % 10));
        assert(dec(n as nat) == dec((n / 10) as nat).push(hex_digit((n % 10) as nat)));
        assert(final(out)@ =~= old(out)@ + dec(n as nat));
    } else {
        out.push(digit_char(n));
        assert(dec(n as nat) == seq![hex_digit(n as nat)]);
        assert(final(out)@ =~= old(out)@ + dec(n as nat));
    }
}

/// Appends the lower-case hexadecimal digits of `n`.
pub fn push_hex(out: &mut Vec<char>, n: u128)
    ensures
        final(out)@ == old(out)@ + hex(n as nat),
    decreases n,
{
    if n >= 16 {
        push_hex(out, n / 16);
        out.push(digit_char((n % 16) as u64));
        assert(hex(n as nat) == hex((n / 16) as nat).push(hex_digit((n % 16) as nat)));
        assert(final(out)@ =~= old(out)@ + hex(n as nat));
    } else {
        out.push(digit_char(n as u64));
        assert(hex(n as nat) == seq![hex_digit(n as nat)]);
        assert(final(out)@ =~= old(out)@ + hex(n as nat));
    }
}

/// Two lower-case hex digits for each byte.
pub fn hex_lower(bytes: &[u8]) -> (r: String)
    ensures
        r@ == hex_bytes(bytes@),
{
    let mut out: Vec<char> = Vec::new();
    let mut i: usize = 0;
    while i < bytes.len()
        invariant
            i <= bytes@.len(),
            out@ == hex_bytes(bytes@.take(i as int)),
        decreases bytes@.len() - i,
    {
        let b = bytes[i];
        out.push(digit_char((b / 16) as u64));
        out.push(digit_char((b % 16) as u64));
        assert(bytes@.take(i + 1).drop_last() =~= bytes@.take(i as int));
        assert(out@ =~= hex_bytes(bytes@.take(i + 1)));
        i = i + 1;
    }
    assert(bytes@.take(bytes@.len() as int) =~= bytes@);
    string_of(&out)
}


proof fn lemma_trim_start_no_lead(s: Seq<char>)
    ensures
        trim_start(s).len() > 0 ==> !is_ws(trim_start(s)[0]),
        trim_start(trim_start(s)) == trim_start(s),
    decreases s.len(),
{
    if s.len() > 0 && is_ws(s[0]) {
        lemma_trim_start_no_lead(s.drop_first());
    }
}

proof fn lemma_trim_end_keeps_start(s: Seq<char>)
    requires
        s.len() > 0 ==> !is_ws(s[0]),
    ensures
        trim_end(s).len() > 0 ==> !is_ws(trim_end(s)[0]),
        trim_end(s).len() > 0 ==> !is_ws(trim_end(s).last()),
        trim_start(trim_end(s)) == trim_end(s),
    decreases s.len(),
{
    if s.len() > 0 && is_ws(s.last()) {
        if s.len() > 1 {
            assert(s.drop_last()[0] == s[0]);
        }
        lemma_trim_end_keeps_start(s.drop_last());
    }
}

proof fn lemma_trim_end_idem(s: Seq<char>)
    ensures
        trim_end(trim_end(s)) == trim_end(s),
    decreases s.len(),
{
    if s.len() > 0 && is_ws(s.last()) {
        lemma_trim_end_idem(s.drop_last());
    }
}

/// Trimming twice is trimming once.
pub proof fn lemma_trim_idempotent(s: Seq<char>)
    ensures
        trim(trim(s)) == trim(s),
{
    lemma_trim_start_no_lead(s);
    let a = trim_start(s);
    lemma_trim_end_keeps_start(a);
    lemma_trim_end_idem(a);
}


/// The lines of `cur + a + "\n"` when `a` has no newline: that one line.
pub proof fn lemma_lines_rec_last(a: Seq<char>, cur: Seq<char>)
    requires
        lacks(a, '\n'),
    ensures
        lines_rec(a + seq!['\n'], cur) == seq![strip_cr(cur + a)],
    decreases a.len(),
{
    let t = a + seq!['\n'];
    if a.len() == 0 {
        assert(t =~= seq!['\n']);
        assert(t.drop_first() =~= Seq::<char>::empty());
        assert(cur + a =~= cur);
        assert(lines_rec(Seq::<char>::empty(), seq![]) =~= Seq::<Seq<char>>::empty());
        assert(lines_rec(t, cur) == seq![strip_cr(cur)] + lines_rec(t.drop_first(), seq![]));
        assert(lines_rec(t, cur) =~= seq![strip_cr(cur + a)]);
    } else {
        assert(t[0] == a[0]);
        assert(a[0] != '\n');
        assert(t.drop_first() =~= a.drop_first() + seq!['\n']);
        assert(lacks(a.drop_first(), '\n')) by {
            assert forall|i: int| 0 <= i < a.drop_first().len() implies #[trigger] a.drop_first()[i] != '\n' by {
                assert(a.drop_first()[i] == a[i + 1]);
            }
        }
        lemma_lines_rec_last(a.drop_first(), cur.push(a[0]));
        assert(cur.push(a[0]) + a.drop_first() =~= cur + a);
    }
}

/// Lines of a text that ends with a newline, followed by more text: the lines of each.
pub proof fn lemma_lines_rec_append(t: Seq<char>, u: Seq<char>, cur: Seq<char>)
    requires
        t.len() > 0,
        t.last() == '\n',
    ensures
        lines_rec(t + u, cur) == lines_rec(t, cur) + lines_rec(u, seq![]),
    decreases t.len(),
{
    let tu = t + u;
    assert(tu[0] == t[0]);
    assert(tu.drop_first() =~= t.drop_first() + u);
    if t[0] == '\n' {
        if t.len() == 1 {
            assert(t.drop_first() =~= Seq::<char>::empty());
            assert(t.drop_first() + u =~= u);
            assert(lines_rec(t.drop_first(), seq![]) =~= Seq::<Seq<char>>::empty());
            assert(lines_rec(t, cur) =~= seq![strip_cr(cur)]);
        } else {
            lemma_lines_rec_append(t.drop_first(), u, seq![]);
            assert(t.drop_first().last() == t.last());
        }
    } else {
        assert(t.len() > 1);
        assert(t.drop_first().last() == t.last());
        lemma_lines_rec_append(t.drop_first(), u, cur.push(t[0]));
    }
}

/// The lines of `a + "\n" + rest`, when `a` has no newline and does not end in `\r`: `a`, then
/// the lines of `rest`.
pub proof fn lemma_lines_cons(a: Seq<char>, rest: Seq<char>)
    requires
        lacks(a, '\n'),
        a.len() == 0 || a.last() != '\r',
    ensures
        lines(a + seq!['\n'] + rest) == seq![a] + lines(rest),
{
    let t = a + seq!['\n'];
    assert(t.last() == '\n');
    lemma_lines_rec_append(t, rest, seq![]);
    lemma_lines_rec_last(a, seq![]);
    assert(Seq::<char>::empty() + a =~= a);
    assert(strip_cr(a) == a);
}

/// A text without `c` has no `c` to split at.
pub proof fn lemma_split_once_absent(s: Seq<char>, c: char)
    requires
        lacks(s, c),
    ensures
        split_once(s, seq![c]) is None,
{
    assert forall|i: int| 0 <= i <= s.len() implies find_from(s, seq![c], i) is None by {
        lemma_find_from_absent(s, c, i);
    }
}

proof fn lemma_find_from_absent(s: Seq<char>, c: char, i: int)
    requires
        lacks(s, c),
        0 <= i,
    ensures
        find_from(s, seq![c], i) is None,
    decreases s.len() + 1 - i,
{
    if i + 1 <= s.len() {
        if matches_at(s, i, seq![c]) {
            assert(s.subrange(i, i + 1)[0] == s[i]);
        }
        lemma_find_from_absent(s, c, i + 1);
    }
}

/// A text that neither starts nor ends with whitespace is its own trim.
pub proof fn lemma_trim_plain(s: Seq<char>)
    requires
        s.len() > 0,
        !is_ws(s[0]),
        !is_ws(s.last()),
    ensures
        trim(s) == s,
{
}

/// A leading space does not survive trimming.
pub proof fn lemma_trim_space_first(s: Seq<char>)
    ensures
        trim(seq![' '] + s) == trim(s),
{
    let t = seq![' '] + s;
    assert(is_ws(' '));
    assert(t.drop_first() =~= s);
}

/// A trailing space after a text with non-whitespace ends does not survive trimming.
pub proof fn lemma_trim_space_last(s: Seq<char>)
    requires
        s.len() > 0,
        !is_ws(s[0]),
        !is_ws(s.last()),
    ensures
        trim(s + seq![' ']) == s,
{
    let t = s + seq![' '];
    assert(t[0] == s[0]);
    assert(is_ws(' '));
    assert(t.drop_last() =~= s);
    assert(trim_start(t) == t);
    assert(trim_end(s) == s);
    assert(trim_end(t) == trim_end(s));
}

/// A text that starts with a non-whitespace character keeps something after trimming.
pub proof fn lemma_trim_nonblank(s: Seq<char>)
    requires
        s.len() > 0,
        !is_ws(s[0]),
    ensures
        trim(s).len() > 0,
{
    lemma_trim_end_nonblank(s);
}

proof fn lemma_trim_end_nonblank(s: Seq<char>)
    requires
        s.len() > 0,
        !is_ws(s[0]),
    ensures
        trim_end(s).len() > 0,
    decreases s.len(),
{
    if is_ws(s.last()) {
        assert(s.len() > 1);
        assert(s.drop_last()[0] == s[0]);
        lemma_trim_end_nonblank(s.drop_last());
    }
}

/// A sequence without occurrences of `c`.
pub open spec fn lacks(s: Seq<char>, c: char) -> bool {
    forall|i: int| 0 <= i < s.len() ==> #[trigger] s[i] != c
}

proof fn lemma_find_from_skips(t: Seq<char>, pat: Seq<char>, j: int, i: int)
    requires
        0 <= i <= j,
        matches_at(t, j, pat),
        forall|k: int| i <= k < j ==> !matches_at(t, k, pat),
    ensures
        find_from(t, pat, i) == Some(j),
    decreases j - i,
{
    if i < j {
        lemma_find_from_skips(t, pat, j, i + 1);
    }
}

/// Splitting `a + c + b` at the first `c` gives `a` and `b` when `a` has no `c`.
pub proof fn lemma_split_once_char(a: Seq<char>, c: char, b: Seq<char>)
    requires
        lacks(a, c),
    ensures
        split_once(a + seq![c] + b, seq![c]) == Some((a, b)),
{
    let t = a + seq![c] + b;
    assert(matches_at(t, a.len() as int, seq![c])) by {
        assert(t.subrange(a.len() as int, a.len() as int + 1) =~= seq![c]);
    }
    assert forall|k: int| 0 <= k < a.len() implies !matches_at(t, k, seq![c]) by {
        if matches_at(t, k, seq![c]) {
            assert(t.subrange(k, k + 1)[0] == t[k]);
            assert(t[k] == a[k]);
        }
    }
    lemma_find_from_skips(t, seq![c], a.len() as int, 0);
    assert(t.take(a.len() as int) =~= a);
    assert(t.skip(a.len() as int + 1) =~= b);
}

/// Splitting a piece without `sep` continues the current part.
pub proof fn lemma_split_rec_plain(a: Seq<char>, sep: char, cur: Seq<char>, rest: Seq<char>)
    requires
        lacks(a, sep),
    ensures
        split_rec(a + rest, sep, cur) == split_rec(rest, sep, cur + a),
    decreases a.len(),
{
    if a.len() == 0 {
        assert(a + rest =~= rest);
        assert(cur + a =~= cur);
    } else {
        let t = a + rest;
        assert(t[0] == a[0]);
        assert(t.drop_first() =~= a.drop_first() + rest);
        assert(lacks(a.drop_first(), sep)) by {
            assert forall|i: int| 0 <= i < a.drop_first().len() implies #[trigger] a.drop_first()[i] != sep by {
                assert(a.drop_first()[i] == a[i + 1]);
            }
        }
        lemma_split_rec_plain(a.drop_first(), sep, cur.push(a[0]), rest);
        assert(cur.push(a[0]) + a.drop_first() =~= cur + a);
    }
}

/// Splitting `a + sep + b` where `a` has no `sep`: the part `a`, then the parts of `b`.
pub proof fn lemma_split_cons(a: Seq<char>, sep: char, b: Seq<char>)
    requires
        lacks(a, sep),
    ensures
        split(a + seq![sep] + b, sep) == seq![a] + split(b, sep),
{
    lemma_split_rec_plain(a, sep, seq![], seq![sep] + b);
    assert(a + seq![sep] + b =~= a + (seq![sep] + b));
    assert(Seq::<char>::empty() + a =~= a);
    let t = seq![sep] + b;
    assert(t.drop_first() =~= b);
}

/// A piece without `sep` is a single part.
pub proof fn lemma_split_single(a: Seq<char>, sep: char)
    requires
        lacks(a, sep),
    ensures
        split(a, sep) == seq![a],
{
    lemma_split_rec_plain(a, sep, seq![], seq![]);
    assert(a + Seq::<char>::empty() =~= a);
    assert(Seq::<char>::empty() + a =~= a);
}


/// Splitting `a + pat + b` at the first `pat` gives `a` and `b` when `a` has no `pat[0]`.
pub proof fn lemma_split_once_first(a: Seq<char>, pat: Seq<char>, b: Seq<char>)
    requires
        pat.len() > 0,
        lacks(a, pat[0]),
    ensures
        split_once(a + pat + b, pat) == Some((a, b)),
{
    let t = a + pat + b;
    assert(matches_at(t, a.len() as int, pat)) by {
        assert(t.subrange(a.len() as int, (a.len() + pat.len()) as int) =~= pat);
    }
    assert forall|k: int| 0 <= k < a.len() implies !matches_at(t, k, pat) by {
        if matches_at(t, k, pat) {
            assert(t.subrange(k, k + pat.len())[0] == t[k]);
            assert(t[k] == a[k]);
        }
    }
    lemma_find_from_skips(t, pat, a.len() as int, 0);
    assert(t.take(a.len() as int) =~= a);
    assert(t.skip((a.len() + pat.len()) as int) =~= b);
}

} // verus!
