//! Pathname patterns: `*`, `?` and bracket classes in the unquoted parts
//! of a word, split into `/`-separated components, and the matching of a
//! component against a file name. Reading directories is left to the
//! binary; which entries to keep is decided here.
use vstd::prelude::*;
use vstd::string::StringExecFns;

use crate::shell::state::strings_view;
use crate::table::{lemma_lex_irreflexive, lemma_lex_transitive, lex_lt, str_lt};
use crate::text::{char_at, chars_of, string_from_chars};

verus! {

/// One member of a bracket class.
#[derive(Debug, Clone, Copy, PartialEq, Eq, Structural)]
pub enum CharClassItem {
    Char(char),
    /// The characters from the first to the second, both included.
    Range(char, char),
}

/// A bracket class: `[...]`, or `[!...]` / `[^...]` for its complement.
#[derive(Debug)]
pub struct CharClass {
    pub negated: bool,
    pub items: Vec<CharClassItem>,
}

/// One element of a pattern.
#[derive(Debug)]
pub enum GlobToken {
    Literal(char),
    AnyString,
    AnyChar,
    CharClass(CharClass),
}

/// The tokens of one `/`-separated part of a pattern.
#[derive(Debug)]
pub struct GlobComponent {
    pub tokens: Vec<GlobToken>,
}

/// A word after expansion, ready for pathname matching.
#[derive(Debug)]
pub struct ExpandedGlobWord {
    pub text: String,
    pub components: Vec<GlobComponent>,
    pub has_glob_meta: bool,
}

/// The value of a bracket class.
pub struct ClassV {
    pub negated: bool,
    pub items: Seq<CharClassItem>,
}

/// The value of a pattern token.
pub enum GlobV {
    Literal(char),
    AnyString,
    AnyChar,
    Class(ClassV),
}

impl CharClass {
    pub open spec fn view(&self) -> ClassV {
        ClassV { negated: self.negated, items: self.items@ }
    }
}

impl GlobToken {
    pub open spec fn view(&self) -> GlobV {
        match self {
            GlobToken::Literal(c) => GlobV::Literal(*c),
            GlobToken::AnyString => GlobV::AnyString,
            GlobToken::AnyChar => GlobV::AnyChar,
            GlobToken::CharClass(cls) => GlobV::Class(cls.view()),
        }
    }
}

pub open spec fn tokens_view(v: Seq<GlobToken>) -> Seq<GlobV> {
    v.map_values(|t: GlobToken| t.view())
}

impl GlobComponent {
    pub open spec fn view(&self) -> Seq<GlobV> {
        tokens_view(self.tokens@)
    }
}

pub open spec fn components_view(v: Seq<GlobComponent>) -> Seq<Seq<GlobV>> {
    v.map_values(|c: GlobComponent| c.view())
}

/// The token for the character `c` (a constructor with a result of its type).
pub open spec fn literal_token(c: char) -> GlobV {
    GlobV::Literal(c)
}

pub open spec fn char_item(c: char) -> CharClassItem {
    CharClassItem::Char(c)
}

pub open spec fn range_item(a: char, b: char) -> CharClassItem {
    CharClassItem::Range(a, b)
}

pub open spec fn item_matches(item: CharClassItem, c: char) -> bool {
    match item {
        CharClassItem::Char(x) => x == c,
        CharClassItem::Range(a, b) => a <= c && c <= b,
    }
}

/// Whether `c` is in the class.
pub open spec fn class_matches(cls: ClassV, c: char) -> bool {
    let matched = exists|i: int| 0 <= i < cls.items.len() && item_matches(#[trigger] cls.items[i], c);
    if cls.negated {
        !matched
    } else {
        matched
    }
}

/// Whether the tokens from `ti` on match the text from `xi` on: a literal
/// or a class matches one character, `?` any one character, and `*` any
/// run of characters, the shortest tried first.
pub open spec fn tokens_match(toks: Seq<GlobV>, text: Seq<char>, ti: int, xi: int) -> bool
    decreases toks.len() - ti, text.len() + 2 - xi,
{
    if ti < 0 || xi < 0 || xi > text.len() || ti >= toks.len() {
        ti == toks.len() && xi == text.len()
    } else {
        match toks[ti] {
            GlobV::Literal(c) => xi < text.len() && text[xi] == c && tokens_match(toks, text, ti + 1, xi + 1),
            GlobV::AnyChar => xi < text.len() && tokens_match(toks, text, ti + 1, xi + 1),
            GlobV::Class(cls) => xi < text.len() && class_matches(cls, text[xi]) && tokens_match(
                toks,
                text,
                ti + 1,
                xi + 1,
            ),
            GlobV::AnyString => star_match_from(toks, text, ti, xi),
        }
    }
}

/// Whether the tokens after the `*` at `ti` match the text from some
/// position at or after `k`.
pub open spec fn star_match_from(toks: Seq<GlobV>, text: Seq<char>, ti: int, k: int) -> bool
    decreases toks.len() - ti, text.len() + 1 - k,
{
    if ti < 0 || ti >= toks.len() || k < 0 || k > text.len() {
        false
    } else {
        tokens_match(toks, text, ti + 1, k) || star_match_from(toks, text, ti, k + 1)
    }
}

/// The bracket class at the start of `s[i..]`: its items and the position
/// after its `]`, if it closes.
pub open spec fn class_items_from(s: Seq<char>, i: int, items: Seq<CharClassItem>) -> Option<
    (Seq<CharClassItem>, int),
>
    decreases s.len() - i,
{
    if i < 0 || i >= s.len() {
        None
    } else if s[i] == ']' && items.len() > 0 {
        Some((items, i + 1))
    } else if i + 2 < s.len() && s[i + 1] == '-' && s[i + 2] != ']' {
        class_items_from(s, i + 3, items.push(range_item(s[i], s[i + 2])))
    } else {
        class_items_from(s, i + 1, items.push(char_item(s[i])))
    }
}

/// The bracket class that starts at position `i` of `s`, and the position
/// after it.
pub open spec fn class_at(s: Seq<char>, i: int) -> Option<(ClassV, int)> {
    if i < 0 || i + 2 > s.len() || s[i] != '[' {
        None
    } else {
        let negated = s[i + 1] == '!' || s[i + 1] == '^';
        let start = if negated {
            i + 2
        } else {
            i + 1
        };
        match class_items_from(s, start, Seq::empty()) {
            Some((items, j)) => Some((ClassV { negated, items }, j)),
            None => None,
        }
    }
}

/// The tokens of `s` from `i` on, and whether any is a wildcard or class.
pub open spec fn glob_tokens_from(s: Seq<char>, i: int) -> (Seq<GlobV>, bool)
    decreases s.len() - i,
{
    if i < 0 || i >= s.len() {
        (Seq::empty(), false)
    } else if s[i] == '*' {
        let (t, m) = glob_tokens_from(s, i + 1);
        (seq![GlobV::AnyString] + t, true)
    } else if s[i] == '?' {
        let (t, m) = glob_tokens_from(s, i + 1);
        (seq![GlobV::AnyChar] + t, true)
    } else if s[i] == '[' {
        match class_at(s, i) {
            Some((cls, j)) => if i < j <= s.len() {
                let (t, m) = glob_tokens_from(s, j);
                (seq![GlobV::Class(cls)] + t, true)
            } else {
                (Seq::empty(), false)
            },
            None => {
                let (t, m) = glob_tokens_from(s, i + 1);
                (seq![GlobV::Literal('[')] + t, m)
            },
        }
    } else {
        let (t, m) = glob_tokens_from(s, i + 1);
        (seq![literal_token(s[i])] + t, m)
    }
}

/// The tokens split at each literal `/`.
pub open spec fn split_components(toks: Seq<GlobV>) -> Seq<Seq<GlobV>>
    decreases toks.len(),
{
    if toks.len() == 0 {
        seq![Seq::empty()]
    } else {
        let c = split_components(toks.drop_last());
        if toks.last() == GlobV::Literal('/') {
            c.push(Seq::empty())
        } else {
            c.update(c.len() - 1, c.last().push(toks.last()))
        }
    }
}

/// The characters of the literal tokens, in order.
pub open spec fn literal_text(toks: Seq<GlobV>) -> Seq<char>
    decreases toks.len(),
{
    if toks.len() == 0 {
        Seq::empty()
    } else {
        literal_text(toks.drop_last()) + match toks.last() {
            GlobV::Literal(c) => seq![c],
            _ => Seq::empty(),
        }
    }
}

/// Whether a component holds a wildcard or a class.
pub open spec fn has_glob(toks: Seq<GlobV>) -> bool {
    exists|i: int| 0 <= i < toks.len() && !(#[trigger] toks[i] is Literal)
}

/// Names that start with `.` match only a component that starts with a
/// literal `.`.
pub open spec fn hidden_rule_allows(toks: Seq<GlobV>, name: Seq<char>) -> bool {
    !(name.len() > 0 && name[0] == '.') || (toks.len() > 0 && toks[0] == GlobV::Literal('.'))
}

/// `name` appended to the path shown so far.
pub open spec fn joined_display(prefix: Seq<char>, name: Seq<char>) -> Seq<char> {
    if prefix.len() == 0 || prefix == seq!['/'] {
        prefix + name
    } else {
        prefix + seq!['/'] + name
    }
}

/// Whether `c` is in the class.
pub fn char_class_matches(class: &CharClass, ch: char) -> (b: bool)
    ensures
        b == class_matches(class.view(), ch),
{
    let mut matched = false;
    let mut i: usize = 0;
    while i < class.items.len()
        invariant
            0 <= i <= class.items@.len(),
            matched == exists|k: int| 0 <= k < i && item_matches(#[trigger] class.items@[k], ch),
        decreases class.items@.len() - i,
    {
        let hit = match class.items[i] {
            CharClassItem::Char(x) => x == ch,
            CharClassItem::Range(a, b) => a <= ch && ch <= b,
        };
        assert(hit == item_matches(class.items@[i as int], ch));
        matched = matched || hit;
        i += 1;
    }
    assert(matched == exists|k: int| 0 <= k < class.items@.len() && item_matches(#[trigger] class.items@[k], ch));
    assert(class.view().items == class.items@);
    assert(class_matches(class.view(), ch) == if class.negated {
        !matched
    } else {
        matched
    });
    if class.negated {
        !matched
    } else {
        matched
    }
}

/// Whether `tokens[ti..]` matches `text[xi..]`.
pub fn glob_tokens_match(tokens: &[GlobToken], text: &[char], ti: usize, xi: usize) -> (b: bool)
    requires
        ti <= tokens@.len(),
        xi <= text@.len(),
    ensures
        b == tokens_match(tokens_view(tokens@), text@, ti as int, xi as int),
    decreases tokens@.len() - ti, text@.len() + 2 - xi,
{
    let ghost toks = tokens_view(tokens@);
    if ti == tokens.len() {
        return xi == text.len();
    }
    match &tokens[ti] {
        GlobToken::Literal(c) => {
            xi < text.len() && text[xi] == *c && glob_tokens_match(tokens, text, ti + 1, xi + 1)
        },
        GlobToken::AnyChar => xi < text.len() && glob_tokens_match(tokens, text, ti + 1, xi + 1),
        GlobToken::CharClass(class) => {
            xi < text.len() && char_class_matches(class, text[xi]) && glob_tokens_match(
                tokens,
                text,
                ti + 1,
                xi + 1,
            )
        },
        GlobToken::AnyString => {
            let n = tokens.len();
            let len = text.len();
            let mut k = xi;
            loop
                invariant
                    ti < n,
                    n == tokens@.len(),
                    len == text@.len(),
                    xi <= k <= len,
                    toks == tokens_view(tokens@),
                    toks[ti as int] == GlobV::AnyString,
                    star_match_from(toks, text@, ti as int, k as int) == star_match_from(
                        toks,
                        text@,
                        ti as int,
                        xi as int,
                    ),
                decreases len - k,
            {
                if glob_tokens_match(tokens, text, ti + 1, k) {
                    return true;
                }
                if k == len {
                    assert(!star_match_from(toks, text@, ti as int, k + 1));
                    return false;
                }
                k += 1;
            }
        },
    }
}

/// The bracket class that starts at `s[start]`, if one does, and the
/// number of characters it takes.
pub fn parse_char_class(s: &Vec<char>, start: usize) -> (r: Option<(CharClass, usize)>)
    requires
        start <= s@.len(),
    ensures
        match r {
            Some((cls, n)) => class_at(s@, start as int) == Some((cls.view(), start + n))
                && start + n <= s@.len() && n > 0,
            None => class_at(s@, start as int) is None,
        },
{
    if s.len() - start < 2 || s[start] != '[' {
        return None;
    }
    let mut idx = start + 1;
    let negated = s[idx] == '!' || s[idx] == '^';
    if negated {
        idx += 1;
    }
    let ghost first = idx;
    let mut items: Vec<CharClassItem> = Vec::new();
    assert(items@ =~= Seq::<CharClassItem>::empty());
    while idx < s.len()
        invariant
            start + 1 <= first <= idx <= s@.len(),
            start + 2 <= s@.len(),
            s@[start as int] == '[',
            negated == (s@[start + 1] == '!' || s@[start + 1] == '^'),
            first == if negated {
                start + 2
            } else {
                start + 1
            },
            class_items_from(s@, idx as int, items@) == class_items_from(s@, first as int, Seq::empty()),
        decreases s@.len() - idx,
    {
        if s[idx] == ']' && items.len() > 0 {
            let cls = CharClass { negated, items };
            return Some((cls, idx + 1 - start));
        }
        let c = char_at(s.as_slice(), idx);
        if s.len() - idx > 2 && s[idx + 1] == '-' && s[idx + 2] != ']' {
            let d = char_at(s.as_slice(), idx + 2);
            items.push(CharClassItem::Range(c, d));
            idx += 3;
        } else {
            items.push(CharClassItem::Char(c));
            idx += 1;
        }
    }
    None
}

/// The tokens of `text`, and whether any is a wildcard or class.
pub fn parse_glob_tokens(text: &str) -> (r: (Vec<GlobToken>, bool))
    ensures
        (tokens_view(r.0@), r.1) == glob_tokens_from(text@, 0),
{
    let s = chars_of(text);
    let mut tokens: Vec<GlobToken> = Vec::new();
    let mut has_meta = false;
    let mut idx: usize = 0;
    while idx < s.len()
        invariant
            0 <= idx <= s@.len(),
            s@ == text@,
            ({
                let (t, m) = glob_tokens_from(s@, idx as int);
                (tokens_view(tokens@) + t, has_meta || m) == glob_tokens_from(s@, 0)
            }),
        decreases s@.len() - idx,
    {
        let ghost before = tokens_view(tokens@);
        let ghost i0 = idx;
        let c = char_at(s.as_slice(), idx);
        let tok = if c == '*' {
            has_meta = true;
            idx += 1;
            GlobToken::AnyString
        } else if c == '?' {
            has_meta = true;
            idx += 1;
            GlobToken::AnyChar
        } else if c == '[' {
            match parse_char_class(&s, idx) {
                Some((cls, n)) => {
                    has_meta = true;
                    idx += n;
                    GlobToken::CharClass(cls)
                },
                None => {
                    idx += 1;
                    GlobToken::Literal('[')
                },
            }
        } else {
            idx += 1;
            GlobToken::Literal(c)
        };
        let ghost tv = tok.view();
        tokens.push(tok);
        proof {
            assert(tokens_view(tokens@) =~= before.push(tv));
            let (t, m) = glob_tokens_from(s@, idx as int);
            let (t0, m0) = glob_tokens_from(s@, i0 as int);
            assert(t0 == seq![tv] + t);
            assert(before + (seq![tv] + t) =~= before.push(tv) + t);
        }
    }
    assert(tokens_view(tokens@) + Seq::<GlobV>::empty() =~= tokens_view(tokens@));
    (tokens, has_meta)
}

/// The tokens split at each literal `/` into components.
pub fn split_glob_components(tokens: Vec<GlobToken>) -> (r: Vec<GlobComponent>)
    ensures
        components_view(r@) == split_components(tokens_view(tokens@)),
{
    let ghost total = tokens_view(tokens@);
    let n0 = tokens.len();
    let mut components: Vec<GlobComponent> = Vec::new();
    let mut current: Vec<GlobToken> = Vec::new();
    let mut rest = tokens;
    let mut taken: usize = 0;
    assert(split_components(total.subrange(0, 0)) =~= seq![Seq::<GlobV>::empty()]);
    assert(tokens_view(current@) =~= Seq::<GlobV>::empty());
    assert(components_view(components@) =~= Seq::<Seq<GlobV>>::empty());
    assert(components_view(components@).push(tokens_view(current@)) =~= seq![Seq::<GlobV>::empty()]);
    assert(tokens_view(rest@) =~= total.subrange(0, total.len() as int));
    while rest.len() > 0
        invariant
            taken + rest@.len() == n0,
            n0 == total.len(),
            tokens_view(rest@) == total.subrange(taken as int, total.len() as int),
            components_view(components@).push(tokens_view(current@)) == split_components(
                total.subrange(0, taken as int),
            ),
        decreases rest@.len(),
    {
        let ghost r0 = rest@;
        let t = rest.remove(0);
        assert(rest@ =~= r0.subrange(1, r0.len() as int));
        assert forall|k: int| 0 <= k < rest@.len() implies (#[trigger] tokens_view(rest@)[k]) == total[taken + 1 + k] by {
            assert(rest@[k] == r0[k + 1]);
            assert(tokens_view(r0)[k + 1] == total.subrange(taken as int, total.len() as int)[k + 1]);
        }
        assert(tokens_view(rest@) =~= total.subrange(taken as int + 1, total.len() as int));
        assert(t == r0[0]);
        assert(tokens_view(r0)[0] == r0[0].view());
        assert(t.view() == total[taken as int]);
        let ghost tk = total.subrange(0, taken as int + 1);
        assert(tk.drop_last() =~= total.subrange(0, taken as int));
        assert(tk.last() == t.view());
        let ghost before_c = components_view(components@);
        let ghost before_cur = tokens_view(current@);
        let is_slash = match &t {
            GlobToken::Literal(c) => *c == '/',
            _ => false,
        };
        if is_slash {
            let mut done: Vec<GlobToken> = Vec::new();
            std::mem::swap(&mut done, &mut current);
            components.push(GlobComponent { tokens: done });
            assert(components_view(components@) =~= before_c.push(before_cur));
            assert(tokens_view(current@) =~= Seq::<GlobV>::empty());
        } else {
            current.push(t);
            assert(tokens_view(current@) =~= before_cur.push(tk.last()));
        }
        taken += 1;
        assert(components_view(components@).push(tokens_view(current@)) =~= split_components(tk));
    }
    assert(total.subrange(0, taken as int) =~= total);
    let ghost cv = components_view(components@);
    components.push(GlobComponent { tokens: current });
    assert(components_view(components@) =~= cv.push(tokens_view(current@)));
    components
}

/// Whether the component holds a wildcard or a class.
pub fn component_has_glob(component: &GlobComponent) -> (b: bool)
    ensures
        b == has_glob(component.view()),
{
    let mut i: usize = 0;
    while i < component.tokens.len()
        invariant
            0 <= i <= component.tokens@.len(),
            forall|k: int| 0 <= k < i ==> (#[trigger] component.view()[k]) is Literal,
        decreases component.tokens@.len() - i,
    {
        match &component.tokens[i] {
            GlobToken::Literal(_) => {},
            _ => {
                assert(!(component.view()[i as int] is Literal));
                return true;
            },
        }
        i += 1;
    }
    false
}

/// The characters of the component's literal tokens.
pub fn component_literal_text(component: &GlobComponent) -> (r: String)
    ensures
        r@ == literal_text(component.view()),
{
    let ghost tv = component.view();
    let mut out: Vec<char> = Vec::new();
    let mut i: usize = 0;
    while i < component.tokens.len()
        invariant
            0 <= i <= component.tokens@.len(),
            tv == component.view(),
            out@ == literal_text(tv.subrange(0, i as int)),
        decreases component.tokens@.len() - i,
    {
        let ghost o = out@;
        match &component.tokens[i] {
            GlobToken::Literal(c) => {
                out.push(*c);
            },
            _ => {
                assert(out@ =~= o + Seq::<char>::empty());
            },
        }
        assert(tv.subrange(0, i + 1).drop_last() =~= tv.subrange(0, i as int));
        i += 1;
    }
    assert(tv.subrange(0, tv.len() as int) =~= tv);
    string_from_chars(out.as_slice())
}

/// `name` appended to the path shown so far, with a `/` between unless
/// the prefix is empty or the root.
pub fn join_display_path(prefix: &str, name: &str) -> (r: String)
    ensures
        r@ == joined_display(prefix@, name@),
{
    let p = chars_of(prefix);
    let mut out = prefix.to_string();
    let root = p.len() == 1 && p[0] == '/';
    if root {
        assert(prefix@ =~= seq!['/']);
    }
    if p.len() == 0 || root {
        out.append(name);
    } else {
        out.append("/");
        out.append(name);
        proof {
            reveal_strlit("/");
        }
        assert("/"@ =~= seq!['/']);
    }
    out
}

/// Whether the component may match `name` as far as hidden names go.
pub fn component_matches_hidden_rule(component: &GlobComponent, name: &str) -> (b: bool)
    ensures
        b == hidden_rule_allows(component.view(), name@),
{
    let n = chars_of(name);
    if !(n.len() > 0 && n[0] == '.') {
        return true;
    }
    if component.tokens.len() == 0 {
        return false;
    }
    match &component.tokens[0] {
        GlobToken::Literal(c) => *c == '.',
        _ => false,
    }
}

/// Whether the component matches the whole of `name`.
pub fn glob_component_matches(component: &GlobComponent, name: &str) -> (b: bool)
    ensures
        b == tokens_match(component.view(), name@, 0, 0),
{
    let chars = chars_of(name);
    glob_tokens_match(component.tokens.as_slice(), chars.as_slice(), 0, 0)
}

/// The pattern of one literal token per character of `text`.
pub open spec fn literal_tokens(text: Seq<char>) -> Seq<GlobV> {
    Seq::new(text.len(), |i: int| literal_token(text[i]))
}

/// A pattern of literal tokens matches its own text.
pub proof fn law_literal_pattern_matches_itself(text: Seq<char>)
    ensures
        tokens_match(literal_tokens(text), text, 0, 0),
{
    lemma_literals_match_from(text, text.len() as int);
}

proof fn lemma_literals_match_from(text: Seq<char>, n: int)
    requires
        0 <= n <= text.len(),
    ensures
        tokens_match(literal_tokens(text), text, text.len() - n, text.len() - n),
    decreases n,
{
    if n > 0 {
        lemma_literals_match_from(text, n - 1);
        let i = text.len() - n;
        assert(literal_tokens(text)[i] == literal_token(text[i]));
    }
}

/// `*` alone matches every name.
pub proof fn law_star_matches_everything(text: Seq<char>)
    ensures
        tokens_match(seq![GlobV::AnyString], text, 0, 0),
{
    lemma_star_reaches_end(text, 0);
}

proof fn lemma_star_reaches_end(text: Seq<char>, k: int)
    requires
        0 <= k <= text.len(),
    ensures
        star_match_from(seq![GlobV::AnyString], text, 0, k),
    decreases text.len() - k,
{
    if k < text.len() {
        lemma_star_reaches_end(text, k + 1);
    } else {
        assert(tokens_match(seq![GlobV::AnyString], text, 1, k));
    }
}

/// One step of the walk over the directories that a pattern's components
/// name, at component `idx`, with the path walked so far shown as `display`.
#[derive(Debug)]
pub enum GlobStep {
    /// Every component is used: the shown path (`.` for none) is a match.
    Found(String),
    /// Go on to the next component: in the same directory (`name` is
    /// `None`), or in the entry `name` of it, with the path shown as `display`.
    Enter { name: Option<String>, display: String },
    /// The component is a pattern: the directory's entries decide.
    List,
}

/// The value of a step.
pub enum GlobStepV {
    Found(Seq<char>),
    Enter { name: Option<Seq<char>>, display: Seq<char> },
    List,
}

impl GlobStep {
    pub open spec fn view(&self) -> GlobStepV {
        match self {
            GlobStep::Found(p) => GlobStepV::Found(p@),
            GlobStep::Enter { name, display } => GlobStepV::Enter {
                name: match name {
                    Some(n) => Some(n@),
                    None => None,
                },
                display: display@,
            },
            GlobStep::List => GlobStepV::List,
        }
    }
}

/// The step at component `idx`: past the last component the shown path
/// is a match; an empty component keeps the directory; a component with
/// no wildcard names its entry without reading the directory.
pub open spec fn glob_step_of(comps: Seq<Seq<GlobV>>, idx: int, display: Seq<char>) -> GlobStepV {
    if idx < 0 || idx >= comps.len() {
        GlobStepV::Found(
            if display.len() == 0 {
                seq!['.']
            } else {
                display
            },
        )
    } else if comps[idx].len() == 0 {
        GlobStepV::Enter { name: None, display }
    } else if !has_glob(comps[idx]) {
        let name = literal_text(comps[idx]);
        GlobStepV::Enter { name: Some(name), display: joined_display(display, name) }
    } else {
        GlobStepV::List
    }
}

/// The step the walk takes at component `idx`.
pub fn glob_step(components: &[GlobComponent], idx: usize, display: &str) -> (r: GlobStep)
    ensures
        r.view() == glob_step_of(components_view(components@), idx as int, display@),
{
    let ghost cv = components_view(components@);
    if idx >= components.len() {
        if display.unicode_len() == 0 {
            let dot = ".".to_string();
            proof {
                reveal_strlit(".");
                assert(dot@ =~= seq!['.']);
            }
            return GlobStep::Found(dot);
        }
        return GlobStep::Found(display.to_string());
    }
    let component = &components[idx];
    assert(cv[idx as int] == component.view());
    if component.tokens.len() == 0 {
        return GlobStep::Enter { name: None, display: display.to_string() };
    }
    if !component_has_glob(component) {
        let name = component_literal_text(component);
        let shown = join_display_path(display, name.as_str());
        return GlobStep::Enter { name: Some(name), display: shown };
    }
    GlobStep::List
}

/// Whether the walk goes into the entry `name` (a directory when `is_dir`)
/// at pattern component `idx`: the name passes the hidden-file rule and the
/// pattern, and only directories lead on to further components.
pub open spec fn entry_kept(comps: Seq<Seq<GlobV>>, idx: int, name: Seq<char>, is_dir: bool) -> bool {
    &&& hidden_rule_allows(comps[idx], name)
    &&& tokens_match(comps[idx], name, 0, 0)
    &&& (idx + 1 >= comps.len() || is_dir)
}

/// The entries the walk goes into, in the order listed, each with the
/// path it is shown as.
pub open spec fn kept_entries(
    comps: Seq<Seq<GlobV>>,
    idx: int,
    display: Seq<char>,
    entries: Seq<(Seq<char>, bool)>,
) -> Seq<(Seq<char>, Seq<char>)>
    decreases entries.len(),
{
    if entries.len() == 0 {
        Seq::empty()
    } else {
        let rest = kept_entries(comps, idx, display, entries.drop_last());
        let (name, is_dir) = entries.last();
        if entry_kept(comps, idx, name, is_dir) {
            rest.push((name, joined_display(display, name)))
        } else {
            rest
        }
    }
}

pub open spec fn entries_view(v: Seq<(String, bool)>) -> Seq<(Seq<char>, bool)> {
    v.map_values(|e: (String, bool)| (e.0@, e.1))
}

pub open spec fn shown_pairs_view(v: Seq<(String, String)>) -> Seq<(Seq<char>, Seq<char>)> {
    v.map_values(|e: (String, String)| (e.0@, e.1@))
}

/// The entries of a listed directory that the walk goes into at a pattern
/// component, as names with the paths they are shown as.
pub fn glob_entries(
    components: &[GlobComponent],
    idx: usize,
    display: &str,
    entries: &[(String, bool)],
) -> (r: Vec<(String, String)>)
    requires
        idx < components@.len(),
    ensures
        shown_pairs_view(r@) == kept_entries(
            components_view(components@),
            idx as int,
            display@,
            entries_view(entries@),
        ),
{
    let ghost cv = components_view(components@);
    let ghost ev = entries_view(entries@);
    let component = &components[idx];
    assert(cv[idx as int] == component.view());
    let last = idx + 1 >= components.len();
    let mut out: Vec<(String, String)> = Vec::new();
    let mut i: usize = 0;
    assert(ev.subrange(0, 0) =~= Seq::<(Seq<char>, bool)>::empty());
    assert(shown_pairs_view(out@) =~= Seq::<(Seq<char>, Seq<char>)>::empty());
    while i < entries.len()
        invariant
            i <= entries@.len(),
            ev == entries_view(entries@),
            cv == components_view(components@),
            idx < cv.len(),
            cv[idx as int] == component.view(),
            last == (idx + 1 >= cv.len()),
            shown_pairs_view(out@) == kept_entries(cv, idx as int, display@, ev.subrange(0, i as int)),
        decreases entries@.len() - i,
    {
        let name = &entries[i].0;
        let is_dir = entries[i].1;
        assert(ev.subrange(0, i + 1).drop_last() =~= ev.subrange(0, i as int));
        assert(ev.subrange(0, i + 1).last() == (name@, is_dir));
        if component_matches_hidden_rule(component, name.as_str()) && glob_component_matches(
            component,
            name.as_str(),
        ) && (last || is_dir) {
            let shown = join_display_path(display, name.as_str());
            let ghost before = out@;
            out.push((name.clone(), shown));
            assert(shown_pairs_view(out@) =~= shown_pairs_view(before).push((name@, joined_display(display@, name@))));
        }
        i += 1;
    }
    assert(ev.subrange(0, entries@.len() as int) =~= ev);
    out
}

/// `s` in order: no name comes after one that it is smaller than.
pub open spec fn in_order(s: Seq<Seq<char>>) -> bool {
    forall|i: int, j: int| 0 <= i < j < s.len() ==> !lex_lt(#[trigger] s[j], #[trigger] s[i])
}

/// The matches sorted as `String`s sort (by their characters), with each
/// one kept as often as it was found.
pub fn sorted_matches(vals: Vec<String>) -> (r: Vec<String>)
    ensures
        in_order(strings_view(r@)),
        strings_view(r@).to_multiset() == strings_view(vals@).to_multiset(),
{
    broadcast use vstd::seq_lib::group_to_multiset_ensures;
    let ghost all = strings_view(vals@);
    let mut out: Vec<String> = Vec::new();
    let mut k: usize = 0;
    assert(all.subrange(0, 0) =~= Seq::<Seq<char>>::empty());
    assert(strings_view(out@) =~= Seq::<Seq<char>>::empty());
    while k < vals.len()
        invariant
            k <= vals@.len(),
            all == strings_view(vals@),
            in_order(strings_view(out@)),
            strings_view(out@).to_multiset() == all.subrange(0, k as int).to_multiset(),
        decreases vals@.len() - k,
    {
        let x = vals[k].clone();
        let ghost s = strings_view(out@);
        let mut p: usize = 0;
        while p < out.len() && !str_lt(x.as_str(), out[p].as_str())
            invariant
                p <= out@.len(),
                s == strings_view(out@),
                x@ == all[k as int],
                k < all.len(),
                forall|q: int| 0 <= q < p ==> !lex_lt(x@, #[trigger] s[q]),
            decreases out@.len() - p,
        {
            p += 1;
        }
        out.insert(p, x.clone());
        proof {
            let t = strings_view(out@);
            assert(t =~= s.insert(p as int, x@));
            assert forall|i: int, j: int| 0 <= i < j < t.len() implies !lex_lt(
                #[trigger] t[j],
                #[trigger] t[i],
            ) by {
                if j < p {
                } else if j == p {
                    assert(t[i] == s[i]);
                } else if i > p {
                    assert(t[i] == s[i - 1] && t[j] == s[j - 1]);
                } else if i == p {
                    // x is below s[p], and no name after s[p] is below s[p].
                    assert(t[j] == s[j - 1]);
                    assert(p < s.len());
                    assert(lex_lt(x@, s[p as int]));
                    if lex_lt(s[j - 1], x@) {
                        lemma_lex_transitive(s[j - 1], x@, s[p as int]);
                        if j - 1 > p {
                        } else {
                            lemma_lex_irreflexive(s[p as int]);
                        }
                    }
                } else {
                    assert(t[i] == s[i] && t[j] == s[j - 1]);
                }
            }
            vstd::seq_lib::to_multiset_insert(s, p as int, x@);
            assert(t.to_multiset() == s.to_multiset().insert(x@));
            assert(all.subrange(0, k + 1) =~= all.subrange(0, k as int).push(x@));
            all.subrange(0, k as int).to_multiset_ensures();
            assert(all.subrange(0, k + 1).to_multiset() == all.subrange(0, k as int).to_multiset().insert(x@));
        }
        k += 1;
    }
    assert(all.subrange(0, vals@.len() as int) =~= all);
    out
}

/// A range item takes in every character from its first end to its last,
/// both ends included, and nothing else: a class made of ranges alone
/// matches exactly the characters inside one of them, and its complement
/// exactly the others.
pub proof fn law_ranges_include_both_ends(cls: ClassV, c: char)
    requires
        forall|i: int| 0 <= i < cls.items.len() ==> (#[trigger] cls.items[i]) is Range,
    ensures
        class_matches(cls, c) == (cls.negated != exists|i: int|
            0 <= i < cls.items.len() && (#[trigger] cls.items[i])->Range_0 <= c && c
                <= cls.items[i]->Range_1),
        forall|i: int|
            0 <= i < cls.items.len() && !cls.negated && (#[trigger] cls.items[i])->Range_0
                <= cls.items[i]->Range_1 ==> class_matches(cls, cls.items[i]->Range_0)
                && class_matches(cls, cls.items[i]->Range_1),
{
    assert forall|i: int| 0 <= i < cls.items.len() implies item_matches(#[trigger] cls.items[i], c)
        == (cls.items[i]->Range_0 <= c && c <= cls.items[i]->Range_1) by {}
    assert forall|i: int|
        0 <= i < cls.items.len() && !cls.negated && (#[trigger] cls.items[i])->Range_0
            <= cls.items[i]->Range_1 implies class_matches(cls, cls.items[i]->Range_0)
        && class_matches(cls, cls.items[i]->Range_1) by {
        assert(item_matches(cls.items[i], cls.items[i]->Range_0));
        assert(item_matches(cls.items[i], cls.items[i]->Range_1));
    }
}

} // verus!
