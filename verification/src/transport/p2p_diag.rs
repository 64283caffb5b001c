//! One-line `key=value` diagnostics for the peer-to-peer path.
use vstd::prelude::*;
use crate::text::{chars_of, extend_str, string_of};

verus! {

/// A character that may stand in a value without quotes: printable ASCII other than `"` and `\`.
pub open spec fn is_bare_char(c: char) -> bool {
    0x21 <= (c as u32) && (c as u32) <= 0x7e && c != '"' && c != '\\'
}

/// A value that is printed as it is: non-empty, only bare characters.
pub open spec fn is_bare(s: Seq<char>) -> bool {
    s.len() > 0 && forall|i: int| 0 <= i < s.len() ==> is_bare_char(#[trigger] s[i])
}

/// How one character of a quoted value is written.
pub open spec fn escape_char(c: char) -> Seq<char> {
    if c == '\\' {
        seq!['\\', '\\']
    } else if c == '"' {
        seq!['\\', '"']
    } else if c == '\n' {
        seq!['\\', 'n']
    } else if c == '\r' {
        seq!['\\', 'r']
    } else if c == '\t' {
        seq!['\\', 't']
    } else {
        seq![c]
    }
}

/// The escaped characters of a quoted value.
pub open spec fn escape(s: Seq<char>) -> Seq<char>
    decreases s.len(),
{
    if s.len() == 0 {
        seq![]
    } else {
        escape(s.drop_last()) + escape_char(s.last())
    }
}

/// A value as diagnostics print it: bare if it can be, else quoted with escapes.
pub open spec fn format_value_spec(s: Seq<char>) -> Seq<char> {
    if is_bare(s) {
        s
    } else {
        seq!['"'] + escape(s) + seq!['"']
    }
}

/// The ` key=value` suffix of a diagnostics line for the given fields.
pub open spec fn fields_spec(fields: Seq<(Seq<char>, Seq<char>)>) -> Seq<char>
    decreases fields.len(),
{
    if fields.len() == 0 {
        seq![]
    } else {
        fields_spec(fields.drop_last()) + seq![' '] + fields.last().0 + seq!['='] + format_value_spec(fields.last().1)
    }
}

/// A whole diagnostics line.
pub open spec fn line_spec(phase: Seq<char>, result: Seq<char>, fields: Seq<(Seq<char>, Seq<char>)>) -> Seq<char> {
    "p2p_diag phase="@ + format_value_spec(phase) + " result="@ + format_value_spec(result) + fields_spec(fields)
}

/// The plain value of the fields.
pub open spec fn fields_view(fields: Seq<(&str, &str)>) -> Seq<(Seq<char>, Seq<char>)> {
    fields.map_values(|f: (&str, &str)| (f.0@, f.1@))
}

/// A value as diagnostics print it.
pub fn format_value(value: &str) -> (r: String)
    ensures
        r@ == format_value_spec(value@),
{
    let v = chars_of(value);
    let mut bare = v.len() > 0;
    let mut i: usize = 0;
    while i < v.len()
        invariant
            i <= v@.len(),
            bare == (v@.len() > 0 && forall|k: int| 0 <= k < i ==> is_bare_char(#[trigger] v@[k])),
        decreases v@.len() - i,
    {
        let c = v[i];
        let u = c as u32;
        if !(0x21 <= u && u <= 0x7e && c != '"' && c != '\\') {
            bare = false;
        }
        i = i + 1;
    }
    if bare {
        return string_of(&v);
    }
    let mut out: Vec<char> = Vec::new();
    out.push('"');
    let mut j: usize = 0;
    while j < v.len()
        invariant
            j <= v@.len(),
            out@ == seq!['"'] + escape(v@.take(j as int)),
        decreases v@.len() - j,
    {
        let c = v[j];
        if c == '\\' {
            out.push('\\');
            out.push('\\');
        } else if c == '"' {
            out.push('\\');
            out.push('"');
        } else if c == '\n' {
            out.push('\\');
            out.push('n');
        } else if c == '\r' {
            out.push('\\');
            out.push('r');
        } else if c == '\t' {
            out.push('\\');
            out.push('t');
        } else {
            out.push(c);
        }
        assert(v@.take(j + 1).drop_last() =~= v@.take(j as int));
        assert(out@ =~= seq!['"'] + escape(v@.take(j + 1)));
        j = j + 1;
    }
    out.push('"');
    assert(v@.take(v@.len() as int) =~= v@);
    assert(out@ =~= seq!['"'] + escape(v@) + seq!['"']);
    string_of(&out)
}

/// A diagnostics line: `p2p_diag phase=<phase> result=<result>` followed by ` key=value` for each field.
pub fn line(phase: &str, result: &str, fields: &[(&str, &str)]) -> (r: String)
    ensures
        r@ == line_spec(phase@, result@, fields_view(fields@)),
{
    let mut out: Vec<char> = Vec::new();
    extend_str(&mut out, "p2p_diag phase=");
    let p = format_value(phase);
    extend_str(&mut out, p.as_str());
    extend_str(&mut out, " result=");
    let q = format_value(result);
    extend_str(&mut out, q.as_str());
    let ghost head = out@;
    assert(head == "p2p_diag phase="@ + format_value_spec(phase@) + " result="@ + format_value_spec(result@));
    let mut i: usize = 0;
    while i < fields.len()
        invariant
            i <= fields@.len(),
            out@ == head + fields_spec(fields_view(fields@.take(i as int))),
        decreases fields@.len() - i,
    {
        let (key, value) = fields[i];
        out.push(' ');
        extend_str(&mut out, key);
        out.push('=');
        let fv = format_value(value);
        extend_str(&mut out, fv.as_str());
        proof {
            let prev = fields_view(fields@.take(i as int));
            let next = fields_view(fields@.take(i + 1));
            assert(next.drop_last() =~= prev);
            assert(next.last() == (key@, value@));
            assert(out@ =~= head + fields_spec(next));
        }
        i = i + 1;
    }
    assert(fields@.take(fields@.len() as int) =~= fields@);
    string_of(&out)
}

/// Escaping never writes a raw line break: the escaped text has no `\n` or `\r`.
proof fn lemma_escape_no_newline(s: Seq<char>)
    ensures
        forall|i: int| 0 <= i < escape(s).len() ==> #[trigger] escape(s)[i] != '\n' && escape(s)[i] != '\r',
    decreases s.len(),
{
    if s.len() > 0 {
        lemma_escape_no_newline(s.drop_last());
        let a = escape(s.drop_last());
        let b = escape_char(s.last());
        assert forall|i: int| 0 <= i < escape(s).len() implies #[trigger] escape(s)[i] != '\n' && escape(s)[i] != '\r' by {
            if i >= a.len() {
                assert(escape(s)[i] == b[i - a.len()]);
            } else {
                assert(escape(s)[i] == a[i]);
            }
        }
    }
}

/// A formatted value never holds a line break, so a diagnostics line stays one line whatever
/// its values hold.
pub proof fn lemma_format_value_single_line(s: Seq<char>)
    ensures
        forall|i: int| 0 <= i < format_value_spec(s).len() ==> #[trigger] format_value_spec(s)[i] != '\n' && format_value_spec(s)[i] != '\r',
{
    lemma_escape_no_newline(s);
    if !is_bare(s) {
        let e = escape(s);
        assert forall|i: int| 0 <= i < format_value_spec(s).len() implies #[trigger] format_value_spec(s)[i] != '\n' && format_value_spec(s)[i] != '\r' by {
            if i == 0 {
            } else if i <= e.len() {
                assert(format_value_spec(s)[i] == e[i - 1]);
            } else {
            }
        }
    } else {
        assert forall|i: int| 0 <= i < s.len() implies #[trigger] s[i] != '\n' && s[i] != '\r' by {
            assert(is_bare_char(s[i]));
        }
    }
}

} // verus!
