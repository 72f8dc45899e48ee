//! Character classes and position scanners over a sequence of
//! characters.  Each spec scanner returns the first position at or
//! after a starting point where its stop condition holds, or the
//! length of the sequence; each has an executable twin proved to
//! return exactly that position.

use vstd::prelude::*;

verus! {

/// Whitespace as it separates attributes inside a tag.
pub open spec fn is_space(c: char) -> bool {
    c == ' ' || c == '\t' || c == '\n' || c == '\r'
}

/// A character that may stand in a tag name.
pub open spec fn is_name_char(c: char) -> bool {
    let u: u32 = c as u32;
    (48 <= u && u <= 57) || (65 <= u && u <= 90) || (97 <= u && u <= 122) || c == '-' || c == '_'
        || c == ':'
}

/// An ASCII letter, the only character that may open a tag name.
pub open spec fn is_letter(c: char) -> bool {
    let u: u32 = c as u32;
    (65 <= u && u <= 90) || (97 <= u && u <= 122)
}

/// A character that ends an attribute name.
pub open spec fn is_attr_name_end(c: char) -> bool {
    is_space(c) || c == '=' || c == '>' || c == '/'
}

/// A character that ends an unquoted attribute value.
pub open spec fn is_unquoted_end(c: char) -> bool {
    is_space(c) || c == '>'
}

/// First position at or after `i` holding `<`, else the length.
pub open spec fn text_end(s: Seq<char>, i: int) -> int
    decreases s.len() - i,
{
    if i < 0 || i >= s.len() {
        s.len() as int
    } else if s[i] == '<' {
        i
    } else {
        text_end(s, i + 1)
    }
}

/// First position at or after `i` whose character cannot stand in a
/// tag name, else the length.
pub open spec fn name_end(s: Seq<char>, i: int) -> int
    decreases s.len() - i,
{
    if i < 0 || i >= s.len() {
        s.len() as int
    } else if !is_name_char(s[i]) {
        i
    } else {
        name_end(s, i + 1)
    }
}

/// First position at or after `i` holding a non-space character, else
/// the length.
pub open spec fn space_end(s: Seq<char>, i: int) -> int
    decreases s.len() - i,
{
    if i < 0 || i >= s.len() {
        s.len() as int
    } else if !is_space(s[i]) {
        i
    } else {
        space_end(s, i + 1)
    }
}

/// First position at or after `i` holding `>`, else the length.
pub open spec fn gt_end(s: Seq<char>, i: int) -> int
    decreases s.len() - i,
{
    if i < 0 || i >= s.len() {
        s.len() as int
    } else if s[i] == '>' {
        i
    } else {
        gt_end(s, i + 1)
    }
}

/// First position at or after `i` holding `>` preceded by `--`, else
/// the length: where a comment ends.
pub open spec fn comment_end(s: Seq<char>, i: int) -> int
    decreases s.len() - i,
{
    if i < 0 || i >= s.len() {
        s.len() as int
    } else if s[i] == '>' && i >= 2 && s[i - 1] == '-' && s[i - 2] == '-' {
        i
    } else {
        comment_end(s, i + 1)
    }
}

/// First position at or after `i` that ends an attribute name, else
/// the length.
pub open spec fn attr_name_end(s: Seq<char>, i: int) -> int
    decreases s.len() - i,
{
    if i < 0 || i >= s.len() {
        s.len() as int
    } else if is_attr_name_end(s[i]) {
        i
    } else {
        attr_name_end(s, i + 1)
    }
}

/// First position at or after `i` that ends an unquoted attribute
/// value, else the length.
pub open spec fn unquoted_end(s: Seq<char>, i: int) -> int
    decreases s.len() - i,
{
    if i < 0 || i >= s.len() {
        s.len() as int
    } else if is_unquoted_end(s[i]) {
        i
    } else {
        unquoted_end(s, i + 1)
    }
}

/// First position at or after `i` holding the quote character `q`,
/// else the length.
pub open spec fn quote_end(s: Seq<char>, i: int, q: char) -> int
    decreases s.len() - i,
{
    if i < 0 || i >= s.len() {
        s.len() as int
    } else if s[i] == q {
        i
    } else {
        quote_end(s, i + 1, q)
    }
}

pub fn name_char(c: char) -> (b: bool)
    ensures
        b == is_name_char(c),
{
    let u: u32 = c as u32;
    (48 <= u && u <= 57) || (65 <= u && u <= 90) || (97 <= u && u <= 122) || c == '-' || c == '_'
        || c == ':'
}

pub fn space_char(c: char) -> (b: bool)
    ensures
        b == is_space(c),
{
    c == ' ' || c == '\t' || c == '\n' || c == '\r'
}

pub fn letter_char(c: char) -> (b: bool)
    ensures
        b == is_letter(c),
{
    let u: u32 = c as u32;
    (65 <= u && u <= 90) || (97 <= u && u <= 122)
}

pub fn find_text_end(s: &Vec<char>, from: usize) -> (r: usize)
    requires
        from <= s.len(),
    ensures
        r as int == text_end(s@, from as int),
        from <= r <= s.len(),
{
    let mut i: usize = from;
    while i < s.len() && s[i] != '<'
        invariant
            from <= i <= s.len(),
            text_end(s@, from as int) == text_end(s@, i as int),
        decreases s.len() - i,
    {
        i = i + 1;
    }
    i
}

pub fn find_name_end(s: &Vec<char>, from: usize) -> (r: usize)
    requires
        from <= s.len(),
    ensures
        r as int == name_end(s@, from as int),
        from <= r <= s.len(),
{
    let mut i: usize = from;
    while i < s.len() && name_char(s[i])
        invariant
            from <= i <= s.len(),
            name_end(s@, from as int) == name_end(s@, i as int),
        decreases s.len() - i,
    {
        i = i + 1;
    }
    i
}

pub fn find_space_end(s: &Vec<char>, from: usize) -> (r: usize)
    requires
        from <= s.len(),
    ensures
        r as int == space_end(s@, from as int),
        from <= r <= s.len(),
{
    let mut i: usize = from;
    while i < s.len() && space_char(s[i])
        invariant
            from <= i <= s.len(),
            space_end(s@, from as int) == space_end(s@, i as int),
        decreases s.len() - i,
    {
        i = i + 1;
    }
    i
}

pub fn find_gt_end(s: &Vec<char>, from: usize) -> (r: usize)
    requires
        from <= s.len(),
    ensures
        r as int == gt_end(s@, from as int),
        from <= r <= s.len(),
{
    let mut i: usize = from;
    while i < s.len() && s[i] != '>'
        invariant
            from <= i <= s.len(),
            gt_end(s@, from as int) == gt_end(s@, i as int),
        decreases s.len() - i,
    {
        i = i + 1;
    }
    i
}

pub fn find_comment_end(s: &Vec<char>, from: usize) -> (r: usize)
    requires
        from <= s.len(),
    ensures
        r as int == comment_end(s@, from as int),
        from <= r <= s.len(),
{
    let mut i: usize = from;
    while i < s.len() && !(s[i] == '>' && i >= 2 && s[i - 1] == '-' && s[i - 2] == '-')
        invariant
            from <= i <= s.len(),
            comment_end(s@, from as int) == comment_end(s@, i as int),
        decreases s.len() - i,
    {
        i = i + 1;
    }
    i
}

pub fn find_attr_name_end(s: &Vec<char>, from: usize) -> (r: usize)
    requires
        from <= s.len(),
    ensures
        r as int == attr_name_end(s@, from as int),
        from <= r <= s.len(),
{
    let mut i: usize = from;
    while i < s.len() && !(space_char(s[i]) || s[i] == '=' || s[i] == '>' || s[i] == '/')
        invariant
            from <= i <= s.len(),
            attr_name_end(s@, from as int) == attr_name_end(s@, i as int),
        decreases s.len() - i,
    {
        i = i + 1;
    }
    i
}

pub fn find_unquoted_end(s: &Vec<char>, from: usize) -> (r: usize)
    requires
        from <= s.len(),
    ensures
        r as int == unquoted_end(s@, from as int),
        from <= r <= s.len(),
{
    let mut i: usize = from;
    while i < s.len() && !(space_char(s[i]) || s[i] == '>')
        invariant
            from <= i <= s.len(),
            unquoted_end(s@, from as int) == unquoted_end(s@, i as int),
        decreases s.len() - i,
    {
        i = i + 1;
    }
    i
}

pub fn find_quote_end(s: &Vec<char>, from: usize, q: char) -> (r: usize)
    requires
        from <= s.len(),
    ensures
        r as int == quote_end(s@, from as int, q),
        from <= r <= s.len(),
{
    let mut i: usize = from;
    while i < s.len() && s[i] != q
        invariant
            from <= i <= s.len(),
            quote_end(s@, from as int, q) == quote_end(s@, i as int, q),
        decreases s.len() - i,
    {
        i = i + 1;
    }
    i
}

} // verus!
