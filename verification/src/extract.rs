//! The extraction rules: from the token sequence of a page to its
//! structured summary.  Every rule is stated as a spec function over
//! the token model and proved of the executable extractor:
//!
//! * `title`: the concatenated text of the first `title` element, or
//!   empty where none opens;
//! * `headings`: the text of every `h1`, then every `h2`, then every
//!   `h3` element, each group in document order;
//! * `links` / `images`: the raw `href` of every `a`, and `src` of
//!   every `img`, in document order, tags without the attribute
//!   skipped;
//! * `meta_description`: the `content` of the first `meta` whose
//!   `name` attribute is exactly `description` (case-sensitively), or
//!   empty;
//! * `opengraph`: a mapping collected from every `meta` whose
//!   `property` value starts with `og:` and that carries `content`,
//!   the later occurrence of a property winning.
//!
//! Tag and attribute names match ASCII-case-insensitively, as an HTML
//! parser folds them; attribute values match exactly.

use vstd::prelude::*;

use crate::chars_of;
use crate::clone_chars;
use crate::eq_ci;
use crate::eq_str;
use crate::eq_str_ci;
use crate::push_all;
use crate::strmap::StrMap;
use crate::token::Attr;
use crate::token::AttrModel;
use crate::token::Token;
use crate::token::TokenModel;
use crate::token::spec_tokens;
use crate::token::tokenize;

verus! {

/// Does this token open an element whose tag is `name`, compared
/// ASCII-case-insensitively?
pub open spec fn is_open(t: TokenModel, name: Seq<char>) -> bool {
    t matches TokenModel::Open { name: n, attrs: _ } && eq_ci(n, name)
}

/// Does this token close an element whose tag is `name`, compared
/// ASCII-case-insensitively?
pub open spec fn is_close(t: TokenModel, name: Seq<char>) -> bool {
    t matches TokenModel::Close { name: n } && eq_ci(n, name)
}

/// The attributes of an opening tag, empty for any other token.
pub open spec fn open_attrs(t: TokenModel) -> Seq<AttrModel> {
    match t {
        TokenModel::Open { name: _, attrs } => attrs,
        _ => Seq::<AttrModel>::empty(),
    }
}

/// The value of the first attribute named `name` (ASCII-case-
/// insensitively), if the tag carries one.
pub open spec fn attr_value(attrs: Seq<AttrModel>, name: Seq<char>) -> Option<Seq<char>>
    decreases attrs.len(),
{
    if attrs.len() == 0 {
        None
    } else if eq_ci(attrs[0].name, name) {
        Some(attrs[0].value)
    } else {
        attr_value(attrs.drop_first(), name)
    }
}

/// The concatenated bodies of the text tokens from position `i` up to
/// the first closing tag named `name`, or to the end.
pub open spec fn gather_text(t: Seq<TokenModel>, i: int, name: Seq<char>) -> Seq<char>
    decreases t.len() - i,
{
    if i < 0 || i >= t.len() {
        Seq::<char>::empty()
    } else if is_close(t[i], name) {
        Seq::<char>::empty()
    } else {
        let head = match t[i] {
            TokenModel::Text { body } => body,
            _ => Seq::<char>::empty(),
        };
        head + gather_text(t, i + 1, name)
    }
}

/// The position just after the first closing tag named `name` at or
/// after `i`, or the length where none follows.
pub open spec fn close_end(t: Seq<TokenModel>, i: int, name: Seq<char>) -> int
    decreases t.len() - i,
{
    if i < 0 || i >= t.len() {
        t.len() as int
    } else if is_close(t[i], name) {
        i + 1
    } else {
        close_end(t, i + 1, name)
    }
}

/// The text of the first `title` element at or after `i`, empty where
/// none opens.
pub open spec fn title_from(t: Seq<TokenModel>, i: int) -> Seq<char>
    decreases t.len() - i,
{
    if i < 0 || i >= t.len() {
        Seq::<char>::empty()
    } else if is_open(t[i], "title"@) {
        gather_text(t, i + 1, "title"@)
    } else {
        title_from(t, i + 1)
    }
}

/// The texts of every element with tag `name` at or after `i`, in
/// document order.  After an opening tag the scan resumes behind the
/// matching closing tag.
pub open spec fn texts_from(t: Seq<TokenModel>, i: int, name: Seq<char>) -> Seq<Seq<char>>
    decreases t.len() - i,
{
    if i < 0 || i >= t.len() {
        Seq::<Seq<char>>::empty()
    } else if is_open(t[i], name) {
        let j0 = close_end(t, i + 1, name);
        let j = if j0 <= i {
            i + 1
        } else if j0 > t.len() {
            t.len() as int
        } else {
            j0
        };
        seq![gather_text(t, i + 1, name)] + texts_from(t, j, name)
    } else {
        texts_from(t, i + 1, name)
    }
}

/// The `key` attribute values of every element with tag `tag` at or
/// after `i`, in document order; elements without the attribute are
/// skipped.
pub open spec fn attr_list_from(t: Seq<TokenModel>, i: int, tag: Seq<char>, key: Seq<char>) -> Seq<
    Seq<char>,
>
    decreases t.len() - i,
{
    if i < 0 || i >= t.len() {
        Seq::<Seq<char>>::empty()
    } else {
        let rest = attr_list_from(t, i + 1, tag, key);
        if is_open(t[i], tag) {
            match attr_value(open_attrs(t[i]), key) {
                Some(v) => seq![v] + rest,
                None => rest,
            }
        } else {
            rest
        }
    }
}

/// Is this token a `meta` tag whose `name` attribute equals exactly
/// `description`?
pub open spec fn is_desc_meta(t: TokenModel) -> bool {
    is_open(t, "meta"@) && attr_value(open_attrs(t), "name"@) == Some("description"@)
}

/// The `content` of the first `meta name="description"` at or after
/// `i`, empty where none is found or the tag carries no `content`.
pub open spec fn meta_desc_from(t: Seq<TokenModel>, i: int) -> Seq<char>
    decreases t.len() - i,
{
    if i < 0 || i >= t.len() {
        Seq::<char>::empty()
    } else if is_desc_meta(t[i]) {
        match attr_value(open_attrs(t[i]), "content"@) {
            Some(v) => v,
            None => Seq::<char>::empty(),
        }
    } else {
        meta_desc_from(t, i + 1)
    }
}

/// Does the sequence start with the three characters `og:`?
pub open spec fn starts_og(s: Seq<char>) -> bool {
    s.len() >= 3 && s[0] == 'o' && s[1] == 'g' && s[2] == ':'
}

/// The OpenGraph pair a token contributes: its `property` value (one
/// starting with `og:`) and its `content` value, where both stand on
/// a `meta` tag.
pub open spec fn og_entry(t: TokenModel) -> Option<(Seq<char>, Seq<char>)> {
    if is_open(t, "meta"@) {
        match attr_value(open_attrs(t), "property"@) {
            Some(p) => if starts_og(p) {
                match attr_value(open_attrs(t), "content"@) {
                    Some(c) => Some((p, c)),
                    None => None,
                }
            } else {
                None
            },
            None => None,
        }
    } else {
        None
    }
}

/// The OpenGraph mapping accumulated over the tokens from `i` on,
/// starting from `m`; a later pair with the same property overwrites
/// an earlier one.
pub open spec fn og_from(t: Seq<TokenModel>, i: int, m: Map<Seq<char>, Seq<char>>) -> Map<
    Seq<char>,
    Seq<char>,
>
    decreases t.len() - i,
{
    if i < 0 || i >= t.len() {
        m
    } else {
        let m2 = match og_entry(t[i]) {
            Some(p) => m.insert(p.0, p.1),
            None => m,
        };
        og_from(t, i + 1, m2)
    }
}

/// Mathematical model of a page summary.
pub struct SummaryModel {
    pub title: Seq<char>,
    pub headings: Seq<Seq<char>>,
    pub links: Seq<Seq<char>>,
    pub meta_description: Seq<char>,
    pub images: Seq<Seq<char>>,
    pub opengraph: Map<Seq<char>, Seq<char>>,
}

/// The texts of all `h1` elements, then of all `h2`, then of all
/// `h3`, each group in document order.
pub open spec fn spec_headings(t: Seq<TokenModel>) -> Seq<Seq<char>> {
    texts_from(t, 0, "h1"@) + texts_from(t, 0, "h2"@) + texts_from(t, 0, "h3"@)
}

/// The summary of a whole page, as a function of its text.
pub open spec fn spec_extract(h: Seq<char>) -> SummaryModel {
    let t = spec_tokens(h);
    SummaryModel {
        title: title_from(t, 0),
        headings: spec_headings(t),
        links: attr_list_from(t, 0, "a"@, "href"@),
        meta_description: meta_desc_from(t, 0),
        images: attr_list_from(t, 0, "img"@, "src"@),
        opengraph: og_from(t, 0, Map::<Seq<char>, Seq<char>>::empty()),
    }
}

/// The summary extracted from one page.
pub struct ExtractionResult {
    pub title: Vec<char>,
    pub headings: Vec<Vec<char>>,
    pub links: Vec<Vec<char>>,
    pub meta_description: Vec<char>,
    pub images: Vec<Vec<char>>,
    pub opengraph: StrMap<Vec<char>>,
}

impl ExtractionResult {
    /// The OpenGraph mapping binds each property at most once.
    pub open spec fn wf(&self) -> bool {
        self.opengraph.wf()
    }
}

impl View for ExtractionResult {
    type V = SummaryModel;

    open spec fn view(&self) -> SummaryModel {
        SummaryModel {
            title: self.title@,
            headings: self.headings.deep_view(),
            links: self.links.deep_view(),
            meta_description: self.meta_description@,
            images: self.images.deep_view(),
            opengraph: self.opengraph@,
        }
    }
}

impl DeepView for ExtractionResult {
    type V = SummaryModel;

    open spec fn deep_view(&self) -> SummaryModel {
        self@
    }
}

/// The per-invocation aggregate: one summary for each URL processed,
/// keyed by the URL as the caller supplied it, each URL bound at most
/// once, a repeated URL keeping its last summary.
pub type Session = StrMap<ExtractionResult>;

/// The value of the first attribute named `key`, matched ASCII-case-
/// insensitively, if any.
pub fn attr_find(attrs: &Vec<Attr>, key: &str) -> (r: Option<Vec<char>>)
    ensures
        r.deep_view() == attr_value(attrs.deep_view(), key@),
{
    let n = attrs.len();
    let mut i: usize = 0;
    proof {
        assert(attrs.deep_view().skip(0) =~= attrs.deep_view());
    }
    while i < n
        invariant
            n == attrs.len(),
            0 <= i <= n,
            attr_value(attrs.deep_view(), key@) == attr_value(
                attrs.deep_view().skip(i as int),
                key@,
            ),
        decreases n - i,
    {
        proof {
            assert(attrs.deep_view().skip(i as int)[0] == attrs.deep_view()[i as int]);
            assert(attrs.deep_view()[i as int] == attrs@[i as int].deep_view());
            assert(attrs.deep_view()[i as int].name =~= attrs@[i as int].name@);
            assert(attrs.deep_view().skip(i as int).drop_first() =~= attrs.deep_view().skip(
                i as int + 1,
            ));
        }
        if eq_str_ci(&attrs[i].name, key) {
            let v = clone_chars(&attrs[i].value);
            proof {
                assert(attrs.deep_view()[i as int].value =~= v@);
            }
            return Some(v);
        }
        i = i + 1;
    }
    proof {
        assert(attrs.deep_view().skip(n as int) =~= Seq::<AttrModel>::empty());
    }
    None
}

/// Collects text up to the first closing tag named `name`, returning
/// the text with the position where scanning resumes.
pub fn gather_until_close(tokens: &Vec<Token>, from: usize, name: &str) -> (r: (Vec<char>, usize))
    requires
        from <= tokens.len(),
    ensures
        r.0@ == gather_text(tokens.deep_view(), from as int, name@),
        r.1 as int == close_end(tokens.deep_view(), from as int, name@),
        from <= r.1 <= tokens.len(),
{
    let n = tokens.len();
    let mut acc: Vec<char> = Vec::new();
    let mut i: usize = from;
    while i < n
        invariant
            n == tokens.len(),
            from <= i <= n,
            gather_text(tokens.deep_view(), from as int, name@) == acc@ + gather_text(
                tokens.deep_view(),
                i as int,
                name@,
            ),
            close_end(tokens.deep_view(), from as int, name@) == close_end(
                tokens.deep_view(),
                i as int,
                name@,
            ),
        decreases n - i,
    {
        proof {
            assert(tokens.deep_view()[i as int] == tokens@[i as int].deep_view());
        }
        match &tokens[i] {
            Token::Close { name: cn } => {
                if eq_str_ci(cn, name) {
                    proof {
                        assert(is_close(tokens.deep_view()[i as int], name@));
                        assert(acc@ + gather_text(tokens.deep_view(), i as int, name@) =~= acc@);
                    }
                    return (acc, i + 1);
                }
            },
            Token::Text { body } => {
                proof {
                    assert(tokens.deep_view()[i as int] matches TokenModel::Text { body: b }
                        && b =~= body@);
                }
                push_all(&mut acc, body);
            },
            _ => {
            },
        }
        i = i + 1;
    }
    proof {
        assert(acc@ + gather_text(tokens.deep_view(), n as int, name@) =~= acc@);
    }
    (acc, n)
}

/// The text of the first `title` element of the page, empty where the
/// page has none.
pub fn extract_title(tokens: &Vec<Token>) -> (r: Vec<char>)
    ensures
        r@ == title_from(tokens.deep_view(), 0),
{
    let n = tokens.len();
    let mut i: usize = 0;
    while i < n
        invariant
            n == tokens.len(),
            0 <= i <= n,
            title_from(tokens.deep_view(), 0) == title_from(tokens.deep_view(), i as int),
        decreases n - i,
    {
        proof {
            assert(tokens.deep_view()[i as int] == tokens@[i as int].deep_view());
        }
        let found = match &tokens[i] {
            Token::Open { name, attrs: _ } => eq_str_ci(name, "title"),
            _ => false,
        };
        if found {
            proof {
                assert(is_open(tokens.deep_view()[i as int], "title"@));
            }
            let (txt, _rest) = gather_until_close(tokens, i + 1, "title");
            return txt;
        }
        proof {
            assert(!is_open(tokens.deep_view()[i as int], "title"@));
        }
        i = i + 1;
    }
    Vec::new()
}

/// The texts of every element with tag `name`, in document order.
pub fn extract_texts(tokens: &Vec<Token>, name: &str) -> (r: Vec<Vec<char>>)
    ensures
        r.deep_view() == texts_from(tokens.deep_view(), 0, name@),
{
    let n = tokens.len();
    let mut out: Vec<Vec<char>> = Vec::new();
    let mut i: usize = 0;
    proof {
        assert(out.deep_view() =~= Seq::<Seq<char>>::empty());
    }
    while i < n
        invariant
            n == tokens.len(),
            0 <= i <= n,
            texts_from(tokens.deep_view(), 0, name@) == out.deep_view() + texts_from(
                tokens.deep_view(),
                i as int,
                name@,
            ),
        decreases n - i,
    {
        proof {
            assert(tokens.deep_view()[i as int] == tokens@[i as int].deep_view());
        }
        let found = match &tokens[i] {
            Token::Open { name: nm, attrs: _ } => eq_str_ci(nm, name),
            _ => false,
        };
        if found {
            proof {
                assert(is_open(tokens.deep_view()[i as int], name@));
            }
            let ghost prev = out.deep_view();
            let (txt, nxt) = gather_until_close(tokens, i + 1, name);
            let ghost tv = txt@;
            out.push(txt);
            proof {
                assert(out.deep_view() =~~= prev + seq![tv]);
                assert(texts_from(tokens.deep_view(), i as int, name@) =~= seq![tv] + texts_from(
                    tokens.deep_view(),
                    nxt as int,
                    name@,
                ));
                assert(out.deep_view() + texts_from(tokens.deep_view(), nxt as int, name@)
                    =~= prev + texts_from(tokens.deep_view(), i as int, name@));
            }
            i = nxt;
        } else {
            proof {
                assert(!is_open(tokens.deep_view()[i as int], name@));
            }
            i = i + 1;
        }
    }
    proof {
        assert(out.deep_view() + texts_from(tokens.deep_view(), n as int, name@) =~= out.deep_view());
    }
    out
}

/// The `key` attribute values of every element with tag `tag`, in
/// document order, elements without the attribute skipped.
pub fn extract_attr_list(tokens: &Vec<Token>, tag: &str, key: &str) -> (r: Vec<Vec<char>>)
    ensures
        r.deep_view() == attr_list_from(tokens.deep_view(), 0, tag@, key@),
{
    let n = tokens.len();
    let mut out: Vec<Vec<char>> = Vec::new();
    let mut i: usize = 0;
    proof {
        assert(out.deep_view() =~= Seq::<Seq<char>>::empty());
    }
    while i < n
        invariant
            n == tokens.len(),
            0 <= i <= n,
            attr_list_from(tokens.deep_view(), 0, tag@, key@) == out.deep_view() + attr_list_from(
                tokens.deep_view(),
                i as int,
                tag@,
                key@,
            ),
        decreases n - i,
    {
        proof {
            assert(tokens.deep_view()[i as int] == tokens@[i as int].deep_view());
        }
        let ghost prev = out.deep_view();
        match &tokens[i] {
            Token::Open { name: nm, attrs } => {
                if eq_str_ci(nm, tag) {
                    proof {
                        assert(is_open(tokens.deep_view()[i as int], tag@));
                        assert(open_attrs(tokens.deep_view()[i as int]) =~= attrs.deep_view());
                    }
                    match attr_find(attrs, key) {
                        Some(v) => {
                            let ghost vv = v@;
                            out.push(v);
                            proof {
                                assert(out.deep_view() =~~= prev + seq![vv]);
                            }
                        },
                        None => {
                        },
                    }
                } else {
                    proof {
                        assert(!is_open(tokens.deep_view()[i as int], tag@));
                    }
                }
            },
            _ => {
            },
        }
        proof {
            assert(out.deep_view() + attr_list_from(tokens.deep_view(), i + 1, tag@, key@)
                =~= prev + attr_list_from(tokens.deep_view(), i as int, tag@, key@));
        }
        i = i + 1;
    }
    proof {
        assert(out.deep_view() + attr_list_from(tokens.deep_view(), n as int, tag@, key@)
            =~= out.deep_view());
    }
    out
}

/// The `content` of the first `meta name="description"`, the name
/// matched exactly, or the empty text.
pub fn extract_meta_description(tokens: &Vec<Token>) -> (r: Vec<char>)
    ensures
        r@ == meta_desc_from(tokens.deep_view(), 0),
{
    let n = tokens.len();
    let mut i: usize = 0;
    while i < n
        invariant
            n == tokens.len(),
            0 <= i <= n,
            meta_desc_from(tokens.deep_view(), 0) == meta_desc_from(tokens.deep_view(), i as int),
        decreases n - i,
    {
        proof {
            assert(tokens.deep_view()[i as int] == tokens@[i as int].deep_view());
        }
        match &tokens[i] {
            Token::Open { name: nm, attrs } => {
                if eq_str_ci(nm, "meta") {
                    proof {
                        assert(is_open(tokens.deep_view()[i as int], "meta"@));
                        assert(open_attrs(tokens.deep_view()[i as int]) =~= attrs.deep_view());
                    }
                    let named = match attr_find(attrs, "name") {
                        Some(v) => {
                            proof {
                                assert(v.deep_view() =~= v@);
                            }
                            eq_str(&v, "description")
                        },
                        None => false,
                    };
                    if named {
                        proof {
                            assert(is_desc_meta(tokens.deep_view()[i as int]));
                        }
                        match attr_find(attrs, "content") {
                            Some(v) => {
                                proof {
                                    assert(v.deep_view() =~= v@);
                                }
                                return v;
                            },
                            None => {
                                return Vec::new();
                            },
                        }
                    } else {
                        proof {
                            assert(!is_desc_meta(tokens.deep_view()[i as int]));
                        }
                    }
                } else {
                    proof {
                        assert(!is_open(tokens.deep_view()[i as int], "meta"@));
                    }
                }
            },
            _ => {
            },
        }
        i = i + 1;
    }
    Vec::new()
}

/// Does this vector start with the three characters `og:`?
pub fn starts_og_exec(v: &Vec<char>) -> (r: bool)
    ensures
        r == starts_og(v@),
{
    v.len() >= 3 && v[0] == 'o' && v[1] == 'g' && v[2] == ':'
}

/// The OpenGraph mapping of the page: every `meta` with an
/// `og:`-prefixed `property` and a `content`, the later occurrence of
/// a property winning.
pub fn extract_opengraph(tokens: &Vec<Token>) -> (r: StrMap<Vec<char>>)
    ensures
        r.wf(),
        r@ == og_from(tokens.deep_view(), 0, Map::<Seq<char>, Seq<char>>::empty()),
{
    let n = tokens.len();
    let mut m: StrMap<Vec<char>> = StrMap::new();
    let mut i: usize = 0;
    while i < n
        invariant
            n == tokens.len(),
            0 <= i <= n,
            m.wf(),
            og_from(tokens.deep_view(), 0, Map::<Seq<char>, Seq<char>>::empty()) == og_from(
                tokens.deep_view(),
                i as int,
                m@,
            ),
        decreases n - i,
    {
        proof {
            assert(tokens.deep_view()[i as int] == tokens@[i as int].deep_view());
        }
        match &tokens[i] {
            Token::Open { name: nm, attrs } => {
                if eq_str_ci(nm, "meta") {
                    proof {
                        assert(is_open(tokens.deep_view()[i as int], "meta"@));
                        assert(open_attrs(tokens.deep_view()[i as int]) =~= attrs.deep_view());
                    }
                    match attr_find(attrs, "property") {
                        Some(p) => {
                            proof {
                                assert(p.deep_view() =~= p@);
                            }
                            if starts_og_exec(&p) {
                                match attr_find(attrs, "content") {
                                    Some(c) => {
                                        proof {
                                            assert(c.deep_view() =~= c@);
                                            assert(og_entry(tokens.deep_view()[i as int])
                                                == Some((p@, c@)));
                                        }
                                        m.insert(p, c);
                                    },
                                    None => {
                                        proof {
                                            assert(og_entry(tokens.deep_view()[i as int]) is None);
                                        }
                                    },
                                }
                            } else {
                                proof {
                                    assert(og_entry(tokens.deep_view()[i as int]) is None);
                                }
                            }
                        },
                        None => {
                            proof {
                                assert(og_entry(tokens.deep_view()[i as int]) is None);
                            }
                        },
                    }
                } else {
                    proof {
                        assert(og_entry(tokens.deep_view()[i as int]) is None);
                    }
                }
            },
            _ => {
                proof {
                    assert(og_entry(tokens.deep_view()[i as int]) is None);
                }
            },
        }
        i = i + 1;
    }
    m
}

/// Extracts the structured summary of one page from its raw text.
/// Extraction is total: any input, however malformed, yields a fully
/// populated summary, absent markup degrading to empty fields.
pub fn extract(html: &str) -> (r: ExtractionResult)
    ensures
        r.wf(),
        r@ == spec_extract(html@),
{
    let cs = chars_of(html);
    let tokens = tokenize(&cs);
    let title = extract_title(&tokens);
    let mut headings = extract_texts(&tokens, "h1");
    let mut h2 = extract_texts(&tokens, "h2");
    let mut h3 = extract_texts(&tokens, "h3");
    let ghost g1 = headings.deep_view();
    let ghost g2 = h2.deep_view();
    let ghost g3 = h3.deep_view();
    headings.append(&mut h2);
    proof {
        assert(headings.deep_view() =~= g1 + g2);
    }
    headings.append(&mut h3);
    proof {
        assert(headings.deep_view() =~= g1 + g2 + g3);
    }
    let links = extract_attr_list(&tokens, "a", "href");
    let meta_description = extract_meta_description(&tokens);
    let images = extract_attr_list(&tokens, "img", "src");
    let opengraph = extract_opengraph(&tokens);
    ExtractionResult { title, headings, links, meta_description, images, opengraph }
}

proof fn lemma_title_from_absent(t: Seq<TokenModel>, i: int)
    requires
        forall|j: int| i <= j < t.len() ==> !is_open(t[j], "title"@),
    ensures
        title_from(t, i) == Seq::<char>::empty(),
    decreases t.len() - i,
{
    if 0 <= i < t.len() {
        lemma_title_from_absent(t, i + 1);
    }
}

/// Where no token of the page opens a `title` element, the extracted
/// title is the empty text.
pub proof fn lemma_absent_title_is_empty(h: Seq<char>)
    requires
        forall|i: int| 0 <= i < spec_tokens(h).len() ==> !is_open(spec_tokens(h)[i], "title"@),
    ensures
        spec_extract(h).title == Seq::<char>::empty(),
{
    lemma_title_from_absent(spec_tokens(h), 0);
}

proof fn lemma_og_stable(t: Seq<TokenModel>, i: int, m: Map<Seq<char>, Seq<char>>, p: Seq<char>)
    requires
        forall|k: int| i <= k < t.len() ==> !(#[trigger] og_entry(t[k]) matches Some(e) && e.0
            == p),
    ensures
        og_from(t, i, m).contains_key(p) == m.contains_key(p),
        m.contains_key(p) ==> og_from(t, i, m)[p] == m[p],
    decreases t.len() - i,
{
    if 0 <= i < t.len() {
        let m2 = match og_entry(t[i]) {
            Some(e) => m.insert(e.0, e.1),
            None => m,
        };
        lemma_og_stable(t, i + 1, m2, p);
    }
}

proof fn lemma_og_from_last(
    t: Seq<TokenModel>,
    i: int,
    m: Map<Seq<char>, Seq<char>>,
    j: int,
    p: Seq<char>,
    c: Seq<char>,
)
    requires
        0 <= i <= j < t.len(),
        og_entry(t[j]) == Some((p, c)),
        forall|k: int| j < k < t.len() ==> !(#[trigger] og_entry(t[k]) matches Some(e) && e.0
            == p),
    ensures
        og_from(t, i, m).contains_key(p),
        og_from(t, i, m)[p] == c,
    decreases t.len() - i,
{
    let m2 = match og_entry(t[i]) {
        Some(e) => m.insert(e.0, e.1),
        None => m,
    };
    if i == j {
        lemma_og_stable(t, i + 1, m2, p);
    } else {
        lemma_og_from_last(t, i + 1, m2, j, p, c);
    }
}

/// Of all the OpenGraph meta tags that set one property, the last
/// sets the content that the extracted mapping binds to it.
pub proof fn lemma_og_last_wins(h: Seq<char>, j: int, p: Seq<char>, c: Seq<char>)
    requires
        0 <= j < spec_tokens(h).len(),
        og_entry(spec_tokens(h)[j]) == Some((p, c)),
        forall|k: int|
            j < k < spec_tokens(h).len() ==> !(#[trigger] og_entry(spec_tokens(h)[k]) matches Some(
                e,
            ) && e.0 == p),
    ensures
        spec_extract(h).opengraph.contains_key(p),
        spec_extract(h).opengraph[p] == c,
{
    lemma_og_from_last(spec_tokens(h), 0, Map::<Seq<char>, Seq<char>>::empty(), j, p, c);
}

} // verus!
