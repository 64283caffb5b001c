//! The small part of TOML the tools read back from the configuration files they write:
//! `key = "value"` lines, with `#` comments and `[section]` headers skipped.
use vstd::prelude::*;
use crate::text::{
    chars_of, eq_chars, is_ws, lacks, lemma_split_once_absent, lemma_split_once_char, lemma_trim_plain,
    lemma_trim_space_first, lemma_trim_space_last, lines, lines_of, split_once, split_once_chars, string_of, trim,
    trim_chars,
};

verus! {

/// The part of a line before its first `#`.
pub open spec fn before_comment(line: Seq<char>) -> Seq<char> {
    match split_once(line, seq!['#']) {
        Some(p) => p.0,
        None => line,
    }
}

/// The inside of a double-quoted value: `v` must start and end with `"` and hold both quotes.
pub open spec fn quoted_value(v: Seq<char>) -> Option<Seq<char>> {
    if v.len() >= 2 && v[0] == '"' && v.last() == '"' {
        Some(v.subrange(1, v.len() - 1))
    } else {
        None
    }
}

/// The key and string value a line defines, if any: comments and surrounding whitespace are
/// dropped; empty lines, section headers, lines without `=`, empty keys and unquoted values
/// define nothing.
pub open spec fn toml_line_spec(line: Seq<char>) -> Option<(Seq<char>, Seq<char>)> {
    let l = trim(before_comment(line));
    if l.len() == 0 || l[0] == '[' {
        None
    } else {
        match split_once(l, seq!['=']) {
            None => None,
            Some(kv) => {
                let key = trim(kv.0);
                if key.len() == 0 {
                    None
                } else {
                    match quoted_value(trim(kv.1)) {
                        Some(v) => Some((key, v)),
                        None => None,
                    }
                }
            },
        }
    }
}

/// The definitions of the lines, in order.
pub open spec fn toml_pairs(ls: Seq<Seq<char>>) -> Seq<(Seq<char>, Seq<char>)>
    decreases ls.len(),
{
    if ls.len() == 0 {
        seq![]
    } else {
        toml_pairs(ls.drop_last()) + match toml_line_spec(ls.last()) {
            Some(p) => seq![p],
            None => seq![],
        }
    }
}

/// The value the last definition of `key` gives it, as a map built from the pairs would hold.
pub open spec fn last_value(pairs: Seq<(Seq<char>, Seq<char>)>, key: Seq<char>) -> Option<Seq<char>>
    decreases pairs.len(),
{
    if pairs.len() == 0 {
        None
    } else if pairs.last().0 == key {
        Some(pairs.last().1)
    } else {
        last_value(pairs.drop_last(), key)
    }
}

/// The plain value of parsed pairs.
pub open spec fn pairs_view(v: Seq<(String, String)>) -> Seq<(Seq<char>, Seq<char>)> {
    v.map_values(|p: (String, String)| (p.0@, p.1@))
}

/// The first `#` splits off a comment.
fn strip_comment(line: &[char]) -> (r: Vec<char>)
    ensures
        r@ == before_comment(line@),
{
    let hash: Vec<char> = vec!['#'];
    assert(hash@ =~= seq!['#']);
    match split_once_chars(line, &hash) {
        Some((before, _)) => before,
        None => {
            let r = crate::text::slice_chars(line, 0, line.len());
            assert(r@ =~= line@);
            r
        },
    }
}

/// The inside of a double-quoted value (see `quoted_value`).
fn unquote(v: &[char]) -> (r: Option<Vec<char>>)
    ensures
        r matches Some(x) ==> quoted_value(v@) == Some(x@),
        r is None ==> quoted_value(v@) is None,
{
    if v.len() >= 2 && v[0] == '"' && v[v.len() - 1] == '"' {
        Some(crate::text::slice_chars(v, 1, v.len() - 1))
    } else {
        None
    }
}

/// The key and value one line defines (see `toml_line_spec`).
pub fn parse_simple_toml_string_line(line: &str) -> (r: Option<(String, String)>)
    ensures
        r matches Some(p) ==> toml_line_spec(line@) == Some((p.0@, p.1@)),
        r is None ==> toml_line_spec(line@) is None,
{
    let chars = chars_of(line);
    let r = parse_line_chars(&chars);
    match r {
        Some((k, v)) => Some((string_of(&k), string_of(&v))),
        None => None,
    }
}

fn parse_line_chars(line: &[char]) -> (r: Option<(Vec<char>, Vec<char>)>)
    ensures
        r matches Some(p) ==> toml_line_spec(line@) == Some((p.0@, p.1@)),
        r is None ==> toml_line_spec(line@) is None,
{
    let before = strip_comment(line);
    let l = trim_chars(&before);
    if l.len() == 0 || l[0] == '[' {
        return None;
    }
    let eq: Vec<char> = vec!['='];
    assert(eq@ =~= seq!['=']);
    match split_once_chars(&l, &eq) {
        None => None,
        Some((k, v)) => {
            let key = trim_chars(&k);
            if key.len() == 0 {
                return None;
            }
            let value = trim_chars(&v);
            match unquote(&value) {
                Some(inner) => Some((key, inner)),
                None => None,
            }
        },
    }
}

/// The definitions in a file, in order (see `toml_pairs`).
pub fn parse_simple_toml_strings(raw: &str) -> (r: Vec<(String, String)>)
    ensures
        pairs_view(r@) == toml_pairs(lines(raw@)),
{
    let text = chars_of(raw);
    let ls = lines_of(&text);
    let ghost all = lines(raw@);
    let mut out: Vec<(String, String)> = Vec::new();
    let mut i: usize = 0;
    while i < ls.len()
        invariant
            i <= ls@.len(),
            all == lines(raw@),
            ls@.len() == all.len(),
            forall|k: int| 0 <= k < ls@.len() ==> #[trigger] ls@[k]@ == all[k],
            pairs_view(out@) == toml_pairs(all.take(i as int)),
        decreases ls@.len() - i,
    {
        let ghost before = pairs_view(out@);
        proof {
            assert(all.take(i + 1).drop_last() =~= all.take(i as int));
            assert(all.take(i + 1).last() == all[i as int]);
        }
        match parse_line_chars(&ls[i]) {
            Some((k, v)) => {
                out.push((string_of(&k), string_of(&v)));
                assert(pairs_view(out@) =~= before + seq![(k@, v@)]);
            },
            None => {
                assert(pairs_view(out@) =~= before + Seq::<(Seq<char>, Seq<char>)>::empty());
            },
        }
        i = i + 1;
    }
    assert(all.take(all.len() as int) =~= all);
    out
}

/// The value of the last definition of `key` (see `last_value`).
pub fn toml_value(pairs: &Vec<(String, String)>, key: &str) -> (r: Option<String>)
    ensures
        r matches Some(v) ==> last_value(pairs_view(pairs@), key@) == Some(v@),
        r is None ==> last_value(pairs_view(pairs@), key@) is None,
{
    let key_chars = chars_of(key);
    let mut i: usize = pairs.len();
    let ghost pv = pairs_view(pairs@);
    assert(pv.take(i as int) =~= pv);
    while i > 0
        invariant
            i <= pairs@.len(),
            pv == pairs_view(pairs@),
            key_chars@ == key@,
            last_value(pv, key@) == last_value(pv.take(i as int), key@),
        decreases i,
    {
        let k = chars_of(pairs[i - 1].0.as_str());
        proof {
            assert(pv.take(i as int).last() == pv[i - 1]);
            assert(pv.take(i as int).drop_last() =~= pv.take(i - 1));
        }
        if eq_chars(&k, &key_chars) {
            return Some(pairs[i - 1].1.clone());
        }
        i = i - 1;
    }
    None
}

/// The value `line` gives `wanted`, if it defines it: like `toml_line_spec`, but section headers
/// and empty keys are not singled out.
pub open spec fn line_value_for(line: Seq<char>, wanted: Seq<char>) -> Option<Seq<char>> {
    let l = trim(before_comment(line));
    match split_once(l, seq!['=']) {
        None => None,
        Some(kv) => {
            if trim(kv.0) != wanted {
                None
            } else {
                quoted_value(trim(kv.1))
            }
        },
    }
}

/// The value of the first line that defines `wanted`.
pub open spec fn first_value(ls: Seq<Seq<char>>, wanted: Seq<char>) -> Option<Seq<char>>
    decreases ls.len(),
{
    if ls.len() == 0 {
        None
    } else {
        match line_value_for(ls[0], wanted) {
            Some(v) => Some(v),
            None => first_value(ls.drop_first(), wanted),
        }
    }
}

fn line_value_chars(line: &[char], wanted: &[char]) -> (r: Option<Vec<char>>)
    ensures
        r matches Some(v) ==> line_value_for(line@, wanted@) == Some(v@),
        r is None ==> line_value_for(line@, wanted@) is None,
{
    let before = strip_comment(line);
    let l = trim_chars(&before);
    let eq: Vec<char> = vec!['='];
    assert(eq@ =~= seq!['=']);
    match split_once_chars(&l, &eq) {
        None => None,
        Some((k, v)) => {
            let key = trim_chars(&k);
            if !eq_chars(&key, wanted) {
                return None;
            }
            let value = trim_chars(&v);
            unquote(&value)
        },
    }
}

/// The value of the first line of `raw` that defines `wanted_key` (see `first_value`).
pub fn parse_simple_toml_string(raw: &str, wanted_key: &str) -> (r: Option<String>)
    ensures
        r matches Some(v) ==> first_value(lines(raw@), wanted_key@) == Some(v@),
        r is None ==> first_value(lines(raw@), wanted_key@) is None,
{
    let text = chars_of(raw);
    let wanted = chars_of(wanted_key);
    let ls = lines_of(&text);
    let ghost all = lines(raw@);
    let mut i: usize = 0;
    assert(all.skip(0) =~= all);
    while i < ls.len()
        invariant
            i <= ls@.len(),
            all == lines(raw@),
            ls@.len() == all.len(),
            forall|k: int| 0 <= k < ls@.len() ==> #[trigger] ls@[k]@ == all[k],
            wanted@ == wanted_key@,
            first_value(all, wanted_key@) == first_value(all.skip(i as int), wanted_key@),
        decreases ls@.len() - i,
    {
        proof {
            assert(all.skip(i as int)[0] == all[i as int]);
            assert(all.skip(i as int).drop_first() =~= all.skip(i + 1));
        }
        match line_value_chars(&ls[i], &wanted) {
            Some(v) => {
                return Some(string_of(&v));
            },
            None => {},
        }
        i = i + 1;
    }
    None
}

// ---------------------------------------------------------------------------
// Reading back what the writers emit
// ---------------------------------------------------------------------------

/// A `key = "value"` line as the configuration writers emit it, without its newline.
pub open spec fn entry_line(key: Seq<char>, value: Seq<char>) -> Seq<char> {
    key + seq![' ', '=', ' ', '"'] + value + seq!['"']
}

/// A key as the writers use them: not empty, no whitespace at either end, not a section header,
/// and without `=`, `#` or a newline.
pub open spec fn plain_key(key: Seq<char>) -> bool {
    &&& key.len() > 0
    &&& !is_ws(key[0])
    &&& !is_ws(key.last())
    &&& key[0] != '['
    &&& lacks(key, '=')
    &&& lacks(key, '#')
    &&& lacks(key, '\n')
}

/// An entry line defines its key with its value, and gives no other key a value, when the value
/// holds no `#`.
pub proof fn lemma_entry_line_reads_back(key: Seq<char>, value: Seq<char>, wanted: Seq<char>)
    requires
        plain_key(key),
        lacks(value, '#'),
    ensures
        line_value_for(entry_line(key, value), wanted) == (if wanted == key { Some(value) } else { None::<Seq<char>> }),
        toml_line_spec(entry_line(key, value)) == Some((key, value)),
{
    let l = entry_line(key, value);
    assert(lacks(l, '#')) by {
        assert forall|i: int| 0 <= i < l.len() implies #[trigger] l[i] != '#' by {
            if i < key.len() {
                assert(l[i] == key[i]);
            } else if i >= key.len() + 4 && i < key.len() + 4 + value.len() {
                assert(l[i] == value[i - key.len() - 4]);
            }
        }
    }
    lemma_split_once_absent(l, '#');
    assert(before_comment(l) == l);
    assert(l[0] == key[0]);
    assert(l.last() == '"');
    assert(!is_ws('"'));
    lemma_trim_plain(l);
    let a = key + seq![' '];
    let c = seq!['"'] + value + seq!['"'];
    let b = seq![' '] + c;
    assert(l =~= a + seq!['='] + b);
    assert(lacks(a, '=')) by {
        assert forall|i: int| 0 <= i < a.len() implies #[trigger] a[i] != '=' by {
            if i < key.len() {
                assert(a[i] == key[i]);
            }
        }
    }
    lemma_split_once_char(a, '=', b);
    lemma_trim_space_last(key);
    lemma_trim_space_first(c);
    assert(c[0] == '"');
    assert(c.last() == '"');
    lemma_trim_plain(c);
    assert(c.subrange(1, c.len() - 1) =~= value);
    assert(quoted_value(c) == Some(value));
}

/// A line that starts with `#` is a comment: it defines nothing.
pub proof fn lemma_comment_line_reads_nothing(rest: Seq<char>, wanted: Seq<char>)
    ensures
        line_value_for(seq!['#'] + rest, wanted) is None,
        toml_line_spec(seq!['#'] + rest) is None,
{
    let l = seq!['#'] + rest;
    lemma_split_once_char(Seq::<char>::empty(), '#', rest);
    assert(Seq::<char>::empty() + seq!['#'] + rest =~= l);
    assert(before_comment(l) == Seq::<char>::empty());
    assert(trim(Seq::<char>::empty()) =~= Seq::<char>::empty());
    lemma_split_once_absent(Seq::<char>::empty(), '=');
}

/// The first value of `wanted` in a first line followed by more lines.
pub proof fn lemma_first_value_cons(l: Seq<char>, rest: Seq<Seq<char>>, wanted: Seq<char>)
    ensures
        first_value(seq![l] + rest, wanted) == (match line_value_for(l, wanted) {
            Some(v) => Some(v),
            None => first_value(rest, wanted),
        }),
{
    let ls = seq![l] + rest;
    assert(ls[0] == l);
    assert(ls.drop_first() =~= rest);
}

/// The definitions of lines followed by one more line.
pub proof fn lemma_toml_pairs_push(ls: Seq<Seq<char>>, l: Seq<char>)
    ensures
        toml_pairs(ls.push(l)) == toml_pairs(ls) + match toml_line_spec(l) {
            Some(p) => seq![p],
            None => seq![],
        },
{
    assert(ls.push(l).drop_last() =~= ls);
}

/// The last value of `key` once one more definition is added.
pub proof fn lemma_last_value_push(pairs: Seq<(Seq<char>, Seq<char>)>, p: (Seq<char>, Seq<char>), key: Seq<char>)
    ensures
        last_value(pairs.push(p), key) == (if p.0 == key { Some(p.1) } else { last_value(pairs, key) }),
{
    assert(pairs.push(p).drop_last() =~= pairs);
    assert(pairs.push(p).last() == p);
}

} // verus!
