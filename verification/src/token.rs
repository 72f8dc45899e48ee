//! A tolerant scanner that turns HTML text into a flat sequence of
//! tokens: opening tags with their attributes, closing tags, and runs
//! of text.  Comments and declarations are consumed and dropped.
//! Scanning never fails: any input yields a token sequence, and the
//! executable scanner is proved to return exactly the sequence that
//! the spec-level scanner describes.
//!
//! Some bounds on scanner positions hold on every path but are not
//! visible to the termination checker, so the spec functions clamp
//! each position into its range before recursing; the executable
//! twins apply the same clamps and so agree with the spec exactly.

use vstd::prelude::*;

use crate::scan::attr_name_end;
use crate::scan::comment_end;
use crate::scan::find_attr_name_end;
use crate::scan::find_comment_end;
use crate::scan::find_gt_end;
use crate::scan::find_name_end;
use crate::scan::find_quote_end;
use crate::scan::find_space_end;
use crate::scan::find_text_end;
use crate::scan::find_unquoted_end;
use crate::scan::gt_end;
use crate::scan::is_letter;
use crate::scan::letter_char;
use crate::scan::name_end;
use crate::scan::quote_end;
use crate::scan::space_end;
use crate::scan::text_end;
use crate::scan::unquoted_end;

verus! {

/// Mathematical model of one attribute: its name and its value.
pub struct AttrModel {
    pub name: Seq<char>,
    pub value: Seq<char>,
}

/// One attribute of an opening tag.  An attribute written without a
/// value carries the empty value.
pub struct Attr {
    pub name: Vec<char>,
    pub value: Vec<char>,
}

impl View for Attr {
    type V = AttrModel;

    open spec fn view(&self) -> AttrModel {
        AttrModel { name: self.name@, value: self.value@ }
    }
}

impl DeepView for Attr {
    type V = AttrModel;

    open spec fn deep_view(&self) -> AttrModel {
        self@
    }
}

/// Mathematical model of one token.
pub enum TokenModel {
    Open { name: Seq<char>, attrs: Seq<AttrModel> },
    Close { name: Seq<char> },
    Text { body: Seq<char> },
}

/// One token of the scanned markup.
pub enum Token {
    Open { name: Vec<char>, attrs: Vec<Attr> },
    Close { name: Vec<char> },
    Text { body: Vec<char> },
}

impl View for Token {
    type V = TokenModel;

    open spec fn view(&self) -> TokenModel {
        match self {
            Token::Open { name, attrs } => TokenModel::Open {
                name: name@,
                attrs: attrs.deep_view(),
            },
            Token::Close { name } => TokenModel::Close { name: name@ },
            Token::Text { body } => TokenModel::Text { body: body@ },
        }
    }
}

impl DeepView for Token {
    type V = TokenModel;

    open spec fn deep_view(&self) -> TokenModel {
        self@
    }
}

/// The attributes read from position `i` up to the end of the
/// surrounding tag, and the position just after that tag's `>` (the
/// length of the input where no `>` follows).  A `/` before the `>`
/// is skipped, so self-closing tags carry their attributes.
pub open spec fn attrs_from(s: Seq<char>, i: int) -> (Seq<AttrModel>, int)
    decreases s.len() - i,
{
    let j = space_end(s, i);
    if j < i || j >= s.len() {
        (Seq::<AttrModel>::empty(), s.len() as int)
    } else if s[j] == '>' {
        (Seq::<AttrModel>::empty(), j + 1)
    } else if s[j] == '/' {
        attrs_from(s, j + 1)
    } else {
        let k0 = attr_name_end(s, j + 1);
        let k = if k0 < j + 1 {
            j + 1
        } else if k0 > s.len() {
            s.len() as int
        } else {
            k0
        };
        let name = s.subrange(j, k);
        let m0 = space_end(s, k);
        let m = if m0 < k {
            k
        } else if m0 > s.len() {
            s.len() as int
        } else {
            m0
        };
        if m < s.len() && s[m] == '=' {
            let v0 = space_end(s, m + 1);
            let v = if v0 < m + 1 {
                m + 1
            } else if v0 > s.len() {
                s.len() as int
            } else {
                v0
            };
            if v < s.len() && (s[v] == '"' || s[v] == '\'') {
                let q0 = quote_end(s, v + 1, s[v]);
                let q = if q0 < v + 1 {
                    v + 1
                } else if q0 > s.len() {
                    s.len() as int
                } else {
                    q0
                };
                let value = s.subrange(v + 1, q);
                let n = if q + 1 > s.len() {
                    s.len() as int
                } else {
                    q + 1
                };
                let rest = attrs_from(s, n);
                (seq![AttrModel { name, value }] + rest.0, rest.1)
            } else {
                let u0 = unquoted_end(s, v);
                let u = if u0 < v {
                    v
                } else if u0 > s.len() {
                    s.len() as int
                } else {
                    u0
                };
                let value = s.subrange(v, u);
                let rest = attrs_from(s, u);
                (seq![AttrModel { name, value }] + rest.0, rest.1)
            }
        } else {
            let rest = attrs_from(s, m);
            (seq![AttrModel { name, value: Seq::<char>::empty() }] + rest.0, rest.1)
        }
    }
}

/// The token beginning at position `i`, if that position opens one,
/// and the position where scanning continues.  The position returned
/// always lies in `(i, s.len()]`, so scanning advances.
pub open spec fn step(s: Seq<char>, i: int) -> (Option<TokenModel>, int) {
    if i < 0 || i >= s.len() {
        (None::<TokenModel>, s.len() as int)
    } else if s[i] != '<' || !(i + 1 < s.len() && (is_letter(s[i + 1]) || s[i + 1] == '/' || s[i
        + 1] == '!')) {
        let j0 = text_end(s, i + 1);
        let j = if j0 < i + 1 {
            i + 1
        } else if j0 > s.len() {
            s.len() as int
        } else {
            j0
        };
        (Some(TokenModel::Text { body: s.subrange(i, j) }), j)
    } else if s[i + 1] == '/' {
        let j0 = name_end(s, i + 2);
        let j = if j0 < i + 2 {
            i + 2
        } else if j0 > s.len() {
            s.len() as int
        } else {
            j0
        };
        let name = s.subrange(i + 2, j);
        let k0 = gt_end(s, j);
        let k = if k0 < j {
            j
        } else if k0 > s.len() {
            s.len() as int
        } else {
            k0
        };
        let n = if k >= s.len() {
            s.len() as int
        } else {
            k + 1
        };
        (Some(TokenModel::Close { name }), n)
    } else if s[i + 1] == '!' {
        if i + 3 < s.len() && s[i + 2] == '-' && s[i + 3] == '-' {
            let j0 = comment_end(s, i + 4);
            let j = if j0 < i + 4 {
                i + 4
            } else if j0 > s.len() {
                s.len() as int
            } else {
                j0
            };
            let n = if j >= s.len() {
                s.len() as int
            } else {
                j + 1
            };
            (None::<TokenModel>, n)
        } else {
            let j0 = gt_end(s, i + 2);
            let j = if j0 < i + 2 {
                i + 2
            } else if j0 > s.len() {
                s.len() as int
            } else {
                j0
            };
            let n = if j >= s.len() {
                s.len() as int
            } else {
                j + 1
            };
            (None::<TokenModel>, n)
        }
    } else {
        let j0 = name_end(s, i + 1);
        let j = if j0 < i + 2 {
            i + 2
        } else if j0 > s.len() {
            s.len() as int
        } else {
            j0
        };
        let name = s.subrange(i + 1, j);
        let parsed = attrs_from(s, j);
        let e = if parsed.1 <= i || parsed.1 > s.len() {
            s.len() as int
        } else {
            parsed.1
        };
        (Some(TokenModel::Open { name, attrs: parsed.0 }), e)
    }
}

/// The sequence of tokens from position `i` to the end of the input.
pub open spec fn tokens_from(s: Seq<char>, i: int) -> Seq<TokenModel>
    decreases s.len() - i,
{
    if i < 0 || i >= s.len() {
        Seq::<TokenModel>::empty()
    } else {
        let stepped = step(s, i);
        let n = if stepped.1 <= i {
            i + 1
        } else if stepped.1 > s.len() {
            s.len() as int
        } else {
            stepped.1
        };
        let rest = tokens_from(s, n);
        match stepped.0 {
            Some(t) => seq![t] + rest,
            None => rest,
        }
    }
}

/// The token sequence of a whole input.
pub open spec fn spec_tokens(s: Seq<char>) -> Seq<TokenModel> {
    tokens_from(s, 0)
}

/// The characters of `s` between `from` and `to`.
pub fn slice_chars(s: &Vec<char>, from: usize, to: usize) -> (r: Vec<char>)
    requires
        from <= to <= s.len(),
    ensures
        r@ == s@.subrange(from as int, to as int),
{
    let mut r: Vec<char> = Vec::new();
    let mut i: usize = from;
    while i < to
        invariant
            from <= i <= to <= s.len(),
            r@ == s@.subrange(from as int, i as int),
        decreases to - i,
    {
        r.push(s[i]);
        proof {
            assert(r@ =~= s@.subrange(from as int, i + 1));
        }
        i = i + 1;
    }
    r
}

/// Reads the attributes of the tag that starts before position `i`,
/// returning them with the position just after the tag.
pub fn parse_attrs(s: &Vec<char>, i: usize) -> (r: (Vec<Attr>, usize))
    requires
        i <= s.len(),
    ensures
        r.0.deep_view() == attrs_from(s@, i as int).0,
        r.1 as int == attrs_from(s@, i as int).1,
        i <= r.1 <= s.len(),
        i < s.len() ==> i < r.1,
    decreases s.len() - i,
{
    let ghost spec_result = attrs_from(s@, i as int);
    let j = find_space_end(s, i);
    if j >= s.len() {
        (Vec::new(), s.len())
    } else if s[j] == '>' {
        (Vec::new(), j + 1)
    } else if s[j] == '/' {
        parse_attrs(s, j + 1)
    } else {
        let k0 = find_attr_name_end(s, j + 1);
        let k = if k0 < j + 1 {
            j + 1
        } else {
            k0
        };
        let name = slice_chars(s, j, k);
        let m0 = find_space_end(s, k);
        let m = if m0 < k {
            k
        } else {
            m0
        };
        if m < s.len() && s[m] == '=' {
            let v0 = find_space_end(s, m + 1);
            let v = if v0 < m + 1 {
                m + 1
            } else {
                v0
            };
            if v < s.len() && (s[v] == '"' || s[v] == '\'') {
                let q0 = find_quote_end(s, v + 1, s[v]);
                let q = if q0 < v + 1 {
                    v + 1
                } else {
                    q0
                };
                let value = slice_chars(s, v + 1, q);
                let n = if q >= s.len() {
                    s.len()
                } else {
                    q + 1
                };
                let (mut rest, e) = parse_attrs(s, n);
                rest.insert(0, Attr { name, value });
                proof {
                    assert(rest.deep_view() =~= spec_result.0);
                }
                (rest, e)
            } else {
                let u0 = find_unquoted_end(s, v);
                let u = if u0 < v {
                    v
                } else {
                    u0
                };
                let value = slice_chars(s, v, u);
                let (mut rest, e) = parse_attrs(s, u);
                rest.insert(0, Attr { name, value });
                proof {
                    assert(rest.deep_view() =~= spec_result.0);
                }
                (rest, e)
            }
        } else {
            let (mut rest, e) = parse_attrs(s, m);
            rest.insert(0, Attr { name, value: Vec::new() });
            proof {
                assert(rest.deep_view() =~= spec_result.0);
            }
            (rest, e)
        }
    }
}

/// Reads the token that starts at position `i`, returning it (or
/// nothing, for a comment or declaration) with the position where
/// scanning continues.
pub fn next_token(s: &Vec<char>, i: usize) -> (r: (Option<Token>, usize))
    requires
        i < s.len(),
    ensures
        r.0.deep_view() == step(s@, i as int).0,
        r.1 as int == step(s@, i as int).1,
        i < r.1 <= s.len(),
{
    let within = i + 1 < s.len();
    if s[i] != '<' || !(within && (letter_char(s[i + 1]) || s[i + 1] == '/' || s[i + 1] == '!')) {
        let j0 = find_text_end(s, i + 1);
        let j = if j0 < i + 1 {
            i + 1
        } else {
            j0
        };
        let body = slice_chars(s, i, j);
        (Some(Token::Text { body }), j)
    } else if s[i + 1] == '/' {
        let j0 = find_name_end(s, i + 2);
        let j = if j0 < i + 2 {
            i + 2
        } else {
            j0
        };
        let name = slice_chars(s, i + 2, j);
        let k = find_gt_end(s, j);
        let n = if k >= s.len() {
            s.len()
        } else {
            k + 1
        };
        (Some(Token::Close { name }), n)
    } else if s[i + 1] == '!' {
        if s.len() - i > 3 && s[i + 2] == '-' && s[i + 3] == '-' {
            let j = find_comment_end(s, i + 4);
            let n = if j >= s.len() {
                s.len()
            } else {
                j + 1
            };
            (None, n)
        } else {
            let j = find_gt_end(s, i + 2);
            let n = if j >= s.len() {
                s.len()
            } else {
                j + 1
            };
            (None, n)
        }
    } else {
        let j0 = find_name_end(s, i + 1);
        let j = if j0 < i + 2 {
            i + 2
        } else {
            j0
        };
        let name = slice_chars(s, i + 1, j);
        let (attrs, e0) = parse_attrs(s, j);
        let e = if e0 <= i {
            s.len()
        } else {
            e0
        };
        (Some(Token::Open { name, attrs }), e)
    }
}

/// Scans a whole input into its token sequence.
pub fn tokenize(s: &Vec<char>) -> (r: Vec<Token>)
    ensures
        r.deep_view() == spec_tokens(s@),
{
    let mut out: Vec<Token> = Vec::new();
    let mut i: usize = 0;
    while i < s.len()
        invariant
            0 <= i <= s.len(),
            out.deep_view() + tokens_from(s@, i as int) == spec_tokens(s@),
        decreases s.len() - i,
    {
        let ghost prev = out.deep_view();
        let (t, n) = next_token(s, i);
        match t {
            Some(tok) => {
                out.push(tok);
                proof {
                    assert(out.deep_view() =~= prev + seq![tok@]);
                    assert(prev + tokens_from(s@, i as int) =~= spec_tokens(s@));
                    assert(tokens_from(s@, i as int) =~= seq![tok@] + tokens_from(s@, n as int));
                    assert(out.deep_view() + tokens_from(s@, n as int) =~= spec_tokens(s@));
                }
            },
            None => {
                proof {
                    assert(tokens_from(s@, i as int) =~= tokens_from(s@, n as int));
                }
            },
        }
        i = n;
    }
    proof {
        assert(out.deep_view() + tokens_from(s@, i as int) =~= out.deep_view());
    }
    out
}

} // verus!
