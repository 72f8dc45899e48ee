//! A JSON emitter for the session aggregate.  The text produced for
//! a session is stated exactly, character by character, by the spec
//! functions here: strings are quoted with `"`, `\` and the control
//! characters escaped; arrays and objects list their members joined
//! by commas, in insertion order.

use vstd::prelude::*;

use crate::chars_of;
use crate::extract::ExtractionResult;
use crate::extract::Session;
use crate::strmap::StrMap;

verus! {

/// The lower-case hexadecimal digit of a value below sixteen.
pub open spec fn hex_digit(n: int) -> char {
    if n == 0 {
        '0'
    } else if n == 1 {
        '1'
    } else if n == 2 {
        '2'
    } else if n == 3 {
        '3'
    } else if n == 4 {
        '4'
    } else if n == 5 {
        '5'
    } else if n == 6 {
        '6'
    } else if n == 7 {
        '7'
    } else if n == 8 {
        '8'
    } else if n == 9 {
        '9'
    } else if n == 10 {
        'a'
    } else if n == 11 {
        'b'
    } else if n == 12 {
        'c'
    } else if n == 13 {
        'd'
    } else if n == 14 {
        'e'
    } else {
        'f'
    }
}

/// How one character appears inside a JSON string: quote and
/// backslash escaped, the named control characters by letter, the
/// remaining control characters as `\u00..`, everything else as
/// itself.
pub open spec fn esc_char(c: char) -> Seq<char> {
    if c == '"' {
        seq!['\\', '"']
    } else if c == '\\' {
        seq!['\\', '\\']
    } else if c == '\u{8}' {
        seq!['\\', 'b']
    } else if c == '\t' {
        seq!['\\', 't']
    } else if c == '\n' {
        seq!['\\', 'n']
    } else if c == '\u{c}' {
        seq!['\\', 'f']
    } else if c == '\r' {
        seq!['\\', 'r']
    } else if (c as u32) < 32 {
        seq!['\\', 'u', '0', '0', hex_digit((c as u32) as int / 16), hex_digit((c as u32) as int % 16)]
    } else {
        seq![c]
    }
}

/// The body of a JSON string: each character escaped in turn.
pub open spec fn esc(s: Seq<char>) -> Seq<char>
    decreases s.len(),
{
    if s.len() == 0 {
        Seq::<char>::empty()
    } else {
        esc_char(s[0]) + esc(s.drop_first())
    }
}

/// A JSON string: the escaped body between double quotes.
pub open spec fn quoted(s: Seq<char>) -> Seq<char> {
    seq!['"'] + esc(s) + seq!['"']
}

pub fn hex_digit_exec(n: u32) -> (c: char)
    requires
        n < 16,
    ensures
        c == hex_digit(n as int),
{
    if n == 0 {
        '0'
    } else if n == 1 {
        '1'
    } else if n == 2 {
        '2'
    } else if n == 3 {
        '3'
    } else if n == 4 {
        '4'
    } else if n == 5 {
        '5'
    } else if n == 6 {
        '6'
    } else if n == 7 {
        '7'
    } else if n == 8 {
        '8'
    } else if n == 9 {
        '9'
    } else if n == 10 {
        'a'
    } else if n == 11 {
        'b'
    } else if n == 12 {
        'c'
    } else if n == 13 {
        'd'
    } else if n == 14 {
        'e'
    } else {
        'f'
    }
}

/// Appends the escaped form of one character.
pub fn push_esc_char(dst: &mut Vec<char>, c: char)
    ensures
        final(dst)@ == old(dst)@ + esc_char(c),
{
    if c == '"' {
        dst.push('\\');
        dst.push('"');
    } else if c == '\\' {
        dst.push('\\');
        dst.push('\\');
    } else if c == '\u{8}' {
        dst.push('\\');
        dst.push('b');
    } else if c == '\t' {
        dst.push('\\');
        dst.push('t');
    } else if c == '\n' {
        dst.push('\\');
        dst.push('n');
    } else if c == '\u{c}' {
        dst.push('\\');
        dst.push('f');
    } else if c == '\r' {
        dst.push('\\');
        dst.push('r');
    } else {
        let u: u32 = c as u32;
        if u < 32 {
            dst.push('\\');
            dst.push('u');
            dst.push('0');
            dst.push('0');
            dst.push(hex_digit_exec(u / 16));
            dst.push(hex_digit_exec(u % 16));
        } else {
            dst.push(c);
        }
    }
    proof {
        assert(dst@ =~= old(dst)@ + esc_char(c));
    }
}

/// Appends a whole JSON string, quotes included.
pub fn push_quoted(dst: &mut Vec<char>, s: &Vec<char>)
    ensures
        final(dst)@ == old(dst)@ + quoted(s@),
{
    dst.push('"');
    let n = s.len();
    let mut i: usize = 0;
    proof {
        assert(dst@ =~= old(dst)@ + seq!['"']);
        assert(s@.skip(0) =~= s@);
    }
    while i < n
        invariant
            n == s.len(),
            0 <= i <= n,
            dst@ + esc(s@.skip(i as int)) == old(dst)@ + seq!['"'] + esc(s@),
        decreases n - i,
    {
        proof {
            assert(s@.skip(i as int)[0] == s@[i as int]);
            assert(s@.skip(i as int).drop_first() =~= s@.skip(i as int + 1));
        }
        let ghost prev = dst@;
        push_esc_char(dst, s[i]);
        proof {
            assert(dst@ + esc(s@.skip(i as int + 1)) =~= prev + esc(s@.skip(i as int)));
        }
        i = i + 1;
    }
    proof {
        assert(esc(s@.skip(n as int)) =~= Seq::<char>::empty());
        assert(dst@ + esc(s@.skip(n as int)) =~= dst@);
    }
    dst.push('"');
    proof {
        assert(dst@ =~= old(dst)@ + quoted(s@));
    }
}

/// Appends the JSON string of a literal.
pub fn push_quoted_str(dst: &mut Vec<char>, s: &str)
    ensures
        final(dst)@ == old(dst)@ + quoted(s@),
{
    let cs = chars_of(s);
    push_quoted(dst, &cs);
}

/// The strings of a JSON array after the first, each preceded by a
/// comma.
pub open spec fn rest_strings(xs: Seq<Seq<char>>) -> Seq<char>
    decreases xs.len(),
{
    if xs.len() == 0 {
        Seq::<char>::empty()
    } else {
        seq![','] + quoted(xs[0]) + rest_strings(xs.drop_first())
    }
}

/// A JSON array of strings, in order, joined by commas.
pub open spec fn json_string_array(xs: Seq<Seq<char>>) -> Seq<char> {
    if xs.len() == 0 {
        seq!['[', ']']
    } else {
        seq!['['] + quoted(xs[0]) + rest_strings(xs.drop_first()) + seq![']']
    }
}

/// Appends a JSON array holding each string of `xs`, in order.
pub fn push_string_array(dst: &mut Vec<char>, xs: &Vec<Vec<char>>)
    ensures
        final(dst)@ == old(dst)@ + json_string_array(xs.deep_view()),
{
    let n = xs.len();
    dst.push('[');
    if n == 0 {
        proof {
            assert(xs.deep_view().len() == 0);
        }
        dst.push(']');
        proof {
            assert(dst@ =~= old(dst)@ + json_string_array(xs.deep_view()));
        }
        return ;
    }
    proof {
        assert(xs.deep_view()[0] =~= xs@[0]@);
    }
    push_quoted(dst, &xs[0]);
    let mut i: usize = 1;
    proof {
        assert(xs.deep_view().skip(1) =~= xs.deep_view().drop_first());
        assert(dst@ + rest_strings(xs.deep_view().skip(1)) + seq![']'] =~= old(dst)@
            + json_string_array(xs.deep_view()));
    }
    while i < n
        invariant
            n == xs.len(),
            1 <= i <= n,
            dst@ + rest_strings(xs.deep_view().skip(i as int)) + seq![']'] == old(dst)@
                + json_string_array(xs.deep_view()),
        decreases n - i,
    {
        proof {
            assert(xs.deep_view().skip(i as int)[0] == xs.deep_view()[i as int]);
            assert(xs.deep_view()[i as int] =~= xs@[i as int]@);
            assert(xs.deep_view().skip(i as int).drop_first() =~= xs.deep_view().skip(i as int + 1));
        }
        let ghost prev = dst@;
        dst.push(',');
        push_quoted(dst, &xs[i]);
        proof {
            assert(dst@ + rest_strings(xs.deep_view().skip(i as int + 1)) =~= prev + rest_strings(
                xs.deep_view().skip(i as int),
            ));
        }
        i = i + 1;
    }
    proof {
        assert(rest_strings(xs.deep_view().skip(n as int)) =~= Seq::<char>::empty());
    }
    dst.push(']');
    proof {
        assert(dst@ =~= old(dst)@ + json_string_array(xs.deep_view()));
    }
}

/// One member of the OpenGraph object: the property as key, the
/// content as value.
pub open spec fn og_member(p: (Vec<char>, Vec<char>)) -> Seq<char> {
    quoted(p.0@) + seq![':'] + quoted(p.1@)
}

/// The OpenGraph members after the first, each preceded by a comma.
pub open spec fn og_rest(es: Seq<(Vec<char>, Vec<char>)>) -> Seq<char>
    decreases es.len(),
{
    if es.len() == 0 {
        Seq::<char>::empty()
    } else {
        seq![','] + og_member(es[0]) + og_rest(es.drop_first())
    }
}

/// The OpenGraph mapping as a JSON object, members in insertion
/// order.
pub open spec fn og_json(es: Seq<(Vec<char>, Vec<char>)>) -> Seq<char> {
    if es.len() == 0 {
        seq!['{', '}']
    } else {
        seq!['{'] + og_member(es[0]) + og_rest(es.drop_first()) + seq!['}']
    }
}

/// Appends the OpenGraph mapping as a JSON object.
pub fn push_og(dst: &mut Vec<char>, m: &StrMap<Vec<char>>)
    ensures
        final(dst)@ == old(dst)@ + og_json(m.entries_raw()),
{
    let n = m.len();
    dst.push('{');
    if n == 0 {
        dst.push('}');
        proof {
            assert(dst@ =~= old(dst)@ + og_json(m.entries_raw()));
        }
        return ;
    }
    let (k0, v0) = m.pair_at(0);
    push_quoted(dst, k0);
    dst.push(':');
    push_quoted(dst, v0);
    let mut i: usize = 1;
    proof {
        assert(m.entries_raw().skip(1) =~= m.entries_raw().drop_first());
        assert(dst@ + og_rest(m.entries_raw().skip(1)) + seq!['}'] =~= old(dst)@ + og_json(
            m.entries_raw(),
        ));
    }
    while i < n
        invariant
            n == m.entries_raw().len(),
            n == m.entry_model().len(),
            1 <= i <= n,
            dst@ + og_rest(m.entries_raw().skip(i as int)) + seq!['}'] == old(dst)@ + og_json(
                m.entries_raw(),
            ),
        decreases n - i,
    {
        proof {
            assert(m.entries_raw().skip(i as int)[0] == m.entries_raw()[i as int]);
            assert(m.entries_raw().skip(i as int).drop_first() =~= m.entries_raw().skip(
                i as int + 1,
            ));
        }
        let ghost prev = dst@;
        let (k, v) = m.pair_at(i);
        dst.push(',');
        push_quoted(dst, k);
        dst.push(':');
        push_quoted(dst, v);
        proof {
            assert(dst@ + og_rest(m.entries_raw().skip(i as int + 1)) =~= prev + og_rest(
                m.entries_raw().skip(i as int),
            ));
        }
        i = i + 1;
    }
    proof {
        assert(og_rest(m.entries_raw().skip(n as int)) =~= Seq::<char>::empty());
    }
    dst.push('}');
    proof {
        assert(dst@ =~= old(dst)@ + og_json(m.entries_raw()));
    }
}

/// One page summary as a JSON object: its six fields, in a fixed
/// order, the OpenGraph mapping nested as an object.
pub open spec fn summary_json(r: ExtractionResult) -> Seq<char> {
    seq!['{'] + quoted("title"@) + seq![':'] + quoted(r.title@) + seq![','] + quoted("headings"@)
        + seq![':'] + json_string_array(r.headings.deep_view()) + seq![','] + quoted("links"@)
        + seq![':'] + json_string_array(r.links.deep_view()) + seq![','] + quoted(
        "meta_description"@,
    ) + seq![':'] + quoted(r.meta_description@) + seq![','] + quoted("images"@) + seq![':']
        + json_string_array(r.images.deep_view()) + seq![','] + quoted("opengraph"@) + seq![':']
        + og_json(r.opengraph.entries_raw()) + seq!['}']
}

/// Appends one page summary as a JSON object.
#[verifier::rlimit(100)]
pub fn push_summary(dst: &mut Vec<char>, r: &ExtractionResult)
    ensures
        final(dst)@ == old(dst)@ + summary_json(*r),
{
    dst.push('{');
    push_quoted_str(dst, "title");
    dst.push(':');
    push_quoted(dst, &r.title);
    dst.push(',');
    push_quoted_str(dst, "headings");
    dst.push(':');
    push_string_array(dst, &r.headings);
    dst.push(',');
    push_quoted_str(dst, "links");
    dst.push(':');
    push_string_array(dst, &r.links);
    dst.push(',');
    push_quoted_str(dst, "meta_description");
    dst.push(':');
    push_quoted(dst, &r.meta_description);
    dst.push(',');
    push_quoted_str(dst, "images");
    dst.push(':');
    push_string_array(dst, &r.images);
    dst.push(',');
    push_quoted_str(dst, "opengraph");
    dst.push(':');
    push_og(dst, &r.opengraph);
    dst.push('}');
    proof {
        assert(dst@ =~= old(dst)@ + summary_json(*r));
    }
}

/// One member of the session object: the URL as key, the page
/// summary as value.
pub open spec fn session_member(p: (Vec<char>, ExtractionResult)) -> Seq<char> {
    quoted(p.0@) + seq![':'] + summary_json(p.1)
}

/// The session members after the first, each preceded by a comma.
pub open spec fn session_rest(es: Seq<(Vec<char>, ExtractionResult)>) -> Seq<char>
    decreases es.len(),
{
    if es.len() == 0 {
        Seq::<char>::empty()
    } else {
        seq![','] + session_member(es[0]) + session_rest(es.drop_first())
    }
}

/// A whole session as one JSON object, keyed by URL, members in
/// insertion order.
pub open spec fn session_json(es: Seq<(Vec<char>, ExtractionResult)>) -> Seq<char> {
    if es.len() == 0 {
        seq!['{', '}']
    } else {
        seq!['{'] + session_member(es[0]) + session_rest(es.drop_first()) + seq!['}']
    }
}

/// Renders a whole session as one JSON object.
#[verifier::rlimit(100)]
pub fn session_to_json(s: &Session) -> (r: Vec<char>)
    ensures
        r@ == session_json(s.entries_raw()),
{
    let mut dst: Vec<char> = Vec::new();
    let n = s.len();
    dst.push('{');
    if n == 0 {
        dst.push('}');
        proof {
            assert(dst@ =~= session_json(s.entries_raw()));
        }
        return dst;
    }
    let (k0, v0) = s.pair_at(0);
    push_quoted(&mut dst, k0);
    dst.push(':');
    push_summary(&mut dst, v0);
    let mut i: usize = 1;
    proof {
        assert(s.entries_raw().skip(1) =~= s.entries_raw().drop_first());
        assert(dst@ + session_rest(s.entries_raw().skip(1)) + seq!['}'] =~= session_json(
            s.entries_raw(),
        ));
    }
    while i < n
        invariant
            n == s.entries_raw().len(),
            n == s.entry_model().len(),
            1 <= i <= n,
            dst@ + session_rest(s.entries_raw().skip(i as int)) + seq!['}'] == session_json(
                s.entries_raw(),
            ),
        decreases n - i,
    {
        proof {
            assert(s.entries_raw().skip(i as int)[0] == s.entries_raw()[i as int]);
            assert(s.entries_raw().skip(i as int).drop_first() =~= s.entries_raw().skip(
                i as int + 1,
            ));
        }
        let ghost prev = dst@;
        let (k, v) = s.pair_at(i);
        dst.push(',');
        push_quoted(&mut dst, k);
        dst.push(':');
        push_summary(&mut dst, v);
        proof {
            assert(dst@ + session_rest(s.entries_raw().skip(i as int + 1)) =~= prev + session_rest(
                s.entries_raw().skip(i as int),
            ));
        }
        i = i + 1;
    }
    proof {
        assert(session_rest(s.entries_raw().skip(n as int)) =~= Seq::<char>::empty());
    }
    dst.push('}');
    proof {
        assert(dst@ =~= session_json(s.entries_raw()));
    }
    dst
}

} // verus!
