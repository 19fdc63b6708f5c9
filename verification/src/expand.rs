//! Words and their segments: the unit the lexer produces and expansion
//! consumes, with the quoting context of every piece.
use vstd::prelude::*;

use crate::shell::{ExitCode, ShellState};
use crate::table::table_get;
use crate::glob::{
    glob_tokens_from, literal_tokens, parse_glob_tokens, split_components, split_glob_components,
    tokens_view, components_view, ExpandedGlobWord, GlobToken, GlobV,
};
use vstd::string::StringExecFns;
use crate::text::{chars_of, is_alnum, is_alpha, is_ascii_alphabetic, is_ascii_alphanumeric, string_from_chars, string_from_str};

verus! {

broadcast use vstd::string::group_string_axioms;

/// The quoting context a piece of a word was written in.
#[derive(Debug, Clone, Copy, PartialEq, Eq, Structural)]
pub enum QuoteKind {
    Unquoted,
    SingleQuoted,
    DoubleQuoted,
}

/// One piece of a word.
#[derive(Debug, PartialEq, Eq)]
pub enum WordSegment {
    Literal { text: String, quote: QuoteKind },
    Variable { name: String, quote: QuoteKind },
    LastStatus { quote: QuoteKind },
    CommandSubstitution { source: String, quote: QuoteKind },
}

/// The mathematical value of a segment.
pub enum SegV {
    Literal { text: Seq<char>, quote: QuoteKind },
    Variable { name: Seq<char>, quote: QuoteKind },
    LastStatus { quote: QuoteKind },
    CommandSubstitution { source: Seq<char>, quote: QuoteKind },
}

impl SegV {
    pub open spec fn quote(self) -> QuoteKind {
        match self {
            SegV::Literal { quote, .. } => quote,
            SegV::Variable { quote, .. } => quote,
            SegV::LastStatus { quote } => quote,
            SegV::CommandSubstitution { quote, .. } => quote,
        }
    }
}

impl View for WordSegment {
    type V = SegV;

    open spec fn view(&self) -> SegV {
        match self {
            WordSegment::Literal { text, quote } => SegV::Literal { text: text@, quote: *quote },
            WordSegment::Variable { name, quote } => SegV::Variable { name: name@, quote: *quote },
            WordSegment::LastStatus { quote } => SegV::LastStatus { quote: *quote },
            WordSegment::CommandSubstitution { source, quote } => SegV::CommandSubstitution {
                source: source@,
                quote: *quote,
            },
        }
    }
}

impl Clone for WordSegment {
    fn clone(&self) -> (r: Self)
        ensures
            r == *self,
    {
        match self {
            WordSegment::Literal { text, quote } => WordSegment::Literal {
                text: text.clone(),
                quote: *quote,
            },
            WordSegment::Variable { name, quote } => WordSegment::Variable {
                name: name.clone(),
                quote: *quote,
            },
            WordSegment::LastStatus { quote } => WordSegment::LastStatus { quote: *quote },
            WordSegment::CommandSubstitution { source, quote } => WordSegment::CommandSubstitution {
                source: source.clone(),
                quote: *quote,
            },
        }
    }
}

impl WordSegment {
    pub fn quote_kind(&self) -> (q: QuoteKind)
        ensures
            q == self@.quote(),
    {
        match self {
            WordSegment::Literal { quote, .. } => *quote,
            WordSegment::Variable { quote, .. } => *quote,
            WordSegment::LastStatus { quote } => *quote,
            WordSegment::CommandSubstitution { quote, .. } => *quote,
        }
    }
}

/// A shell word: the segments it was written as, in order.
#[derive(Debug, PartialEq, Eq)]
pub struct Word {
    pub segments: Vec<WordSegment>,
}

impl View for Word {
    type V = Seq<SegV>;

    open spec fn view(&self) -> Seq<SegV> {
        self.segments@.map_values(|s: WordSegment| s@)
    }
}

impl Clone for Word {
    fn clone(&self) -> (r: Self)
        ensures
            r@ == self@,
    {
        let segments = self.segments.clone();
        assert(segments@ =~= self.segments@);
        Word { segments }
    }
}

/// Whether `c` may start a shell variable name.
pub open spec fn spec_var_start(c: char) -> bool {
    c == '_' || is_alpha(c)
}

/// Whether `c` may continue a shell variable name.
pub open spec fn spec_var_continue(c: char) -> bool {
    c == '_' || is_alnum(c)
}

/// A valid variable name: a letter or `_`, then letters, digits or `_`.
pub open spec fn valid_name(s: Seq<char>) -> bool {
    &&& s.len() > 0
    &&& spec_var_start(s[0])
    &&& forall|k: int| 1 <= k < s.len() ==> spec_var_continue(#[trigger] s[k])
}

pub fn is_var_start(c: char) -> (b: bool)
    ensures
        b == spec_var_start(c),
{
    c == '_' || is_ascii_alphabetic(c)
}

pub fn is_var_continue(c: char) -> (b: bool)
    ensures
        b == spec_var_continue(c),
{
    c == '_' || is_ascii_alphanumeric(c)
}

pub fn valid_name_chars(s: &[char]) -> (b: bool)
    ensures
        b == valid_name(s@),
{
    if s.len() == 0 || !is_var_start(s[0]) {
        return false;
    }
    let mut i: usize = 1;
    while i < s.len()
        invariant
            1 <= i <= s@.len(),
            forall|k: int| 1 <= k < i ==> spec_var_continue(#[trigger] s@[k]),
        decreases s@.len() - i,
    {
        if !is_var_continue(s[i]) {
            return false;
        }
        i += 1;
    }
    true
}

/// Whether `name` may be assigned with `NAME=value`.
pub fn is_valid_assignment_name(name: &str) -> (b: bool)
    ensures
        b == valid_name(name@),
{
    let chars = chars_of(name);
    valid_name_chars(chars.as_slice())
}

/// The position of the first `c` in `s`, if any.
pub open spec fn first_index_of(s: Seq<char>, c: char) -> Option<int>
    decreases s.len(),
{
    if s.len() == 0 {
        None
    } else if s[0] == c {
        Some(0)
    } else {
        match first_index_of(s.drop_first(), c) {
            Some(i) => Some(i + 1),
            None => None,
        }
    }
}

pub proof fn lemma_first_index_of(s: Seq<char>, c: char)
    ensures
        match first_index_of(s, c) {
            Some(i) => 0 <= i < s.len() && s[i] == c && forall|k: int|
                0 <= k < i ==> s[k] != c,
            None => forall|k: int| 0 <= k < s.len() ==> s[k] != c,
        },
    decreases s.len(),
{
    if s.len() > 0 && s[0] != c {
        lemma_first_index_of(s.drop_first(), c);
        match first_index_of(s.drop_first(), c) {
            Some(i) => {
                assert forall|k: int| 0 <= k < i + 1 implies s[k] != c by {
                    if k > 0 {
                        assert(s[k] == s.drop_first()[k - 1]);
                    }
                }
            },
            None => {
                assert forall|k: int| 0 <= k < s.len() implies s[k] != c by {
                    if k > 0 {
                        assert(s[k] == s.drop_first()[k - 1]);
                    }
                }
            },
        }
    }
}

pub fn find_char(s: &[char], c: char) -> (r: Option<usize>)
    ensures
        match r {
            Some(i) => first_index_of(s@, c) == Some(i as int) && i < s@.len() && s@[i as int] == c,
            None => first_index_of(s@, c) is None,
        },
{
    proof {
        lemma_first_index_of(s@, c);
    }
    let mut i: usize = 0;
    while i < s.len()
        invariant
            0 <= i <= s@.len(),
            forall|k: int| 0 <= k < i ==> s@[k] != c,
            match first_index_of(s@, c) {
                Some(j) => 0 <= j < s@.len() && s@[j] == c && forall|k: int|
                    0 <= k < j ==> s@[k] != c,
                None => forall|k: int| 0 <= k < s@.len() ==> s@[k] != c,
            },
        decreases s@.len() - i,
    {
        if s[i] == c {
            return Some(i);
        }
        i += 1;
    }
    None
}

/// The `(name, value)` that a word written as `NAME=value` assigns, if it is one.
pub open spec fn spec_split_assignment(w: Seq<SegV>) -> Option<(Seq<char>, Seq<SegV>)> {
    if w.len() > 0 && w[0] matches SegV::Literal { text, quote: QuoteKind::Unquoted } {
        let text = w[0]->Literal_text;
        match first_index_of(text, '=') {
            Some(e) => {
                let name = text.subrange(0, e);
                let suffix = text.subrange(e + 1, text.len() as int);
                if valid_name(name) {
                    let head = if suffix.len() > 0 {
                        seq![SegV::Literal { text: suffix, quote: QuoteKind::Unquoted }]
                    } else {
                        Seq::empty()
                    };
                    Some((name, head + w.drop_first()))
                } else {
                    None
                }
            },
            None => None,
        }
    } else {
        None
    }
}

/// The text of the word with its quotes removed and every expansion shown
/// as written: `$name`, `$?` and `$(source)`.
pub open spec fn spec_quote_removed(w: Seq<SegV>) -> Seq<char>
    decreases w.len(),
{
    if w.len() == 0 {
        Seq::empty()
    } else {
        spec_quote_removed(w.drop_last()) + seg_text(w.last())
    }
}

pub open spec fn seg_text(s: SegV) -> Seq<char> {
    match s {
        SegV::Literal { text, .. } => text,
        SegV::Variable { name, .. } => seq!['$'] + name,
        SegV::LastStatus { .. } => seq!['$', '?'],
        SegV::CommandSubstitution { source, .. } => seq!['$', '('] + source + seq![')'],
    }
}

/// Whether any segment of the word was quoted.
pub open spec fn spec_is_quoted(w: Seq<SegV>) -> bool {
    exists|i: int| 0 <= i < w.len() && w[i].quote() != QuoteKind::Unquoted
}

fn seg_text_chars(seg: &WordSegment) -> (r: Vec<char>)
    ensures
        r@ == seg_text(seg@),
{
    match seg {
        WordSegment::Literal { text, .. } => chars_of(text.as_str()),
        WordSegment::Variable { name, .. } => {
            let mut r = vec!['$'];
            let n = chars_of(name.as_str());
            let mut i: usize = 0;
            while i < n.len()
                invariant
                    0 <= i <= n@.len(),
                    r@ == seq!['$'] + n@.subrange(0, i as int),
                decreases n@.len() - i,
            {
                r.push(n[i]);
                i += 1;
                assert(r@ =~= seq!['$'] + n@.subrange(0, i as int));
            }
            assert(n@.subrange(0, n@.len() as int) =~= n@);
            r
        },
        WordSegment::LastStatus { .. } => {
            let r = vec!['$', '?'];
            assert(r@ =~= seq!['$', '?']);
            r
        },
        WordSegment::CommandSubstitution { source, .. } => {
            let mut r = vec!['$', '('];
            let n = chars_of(source.as_str());
            let mut i: usize = 0;
            while i < n.len()
                invariant
                    0 <= i <= n@.len(),
                    r@ == seq!['$', '('] + n@.subrange(0, i as int),
                decreases n@.len() - i,
            {
                r.push(n[i]);
                i += 1;
                assert(r@ =~= seq!['$', '('] + n@.subrange(0, i as int));
            }
            r.push(')');
            assert(n@.subrange(0, n@.len() as int) =~= n@);
            assert(r@ =~= seq!['$', '('] + n@ + seq![')']);
            r
        },
    }
}

/// Appends `b` to `a`.
pub fn extend_chars(a: &mut Vec<char>, b: &[char])
    ensures
        final(a)@ == old(a)@ + b@,
{
    let ghost a0 = a@;
    let mut i: usize = 0;
    while i < b.len()
        invariant
            0 <= i <= b@.len(),
            a@ == a0 + b@.subrange(0, i as int),
        decreases b@.len() - i,
    {
        a.push(b[i]);
        i += 1;
        assert(a@ =~= a0 + b@.subrange(0, i as int));
    }
    assert(b@.subrange(0, b@.len() as int) =~= b@);
}

impl Word {
    pub fn new(segments: Vec<WordSegment>) -> (r: Self)
        ensures
            r.segments == segments,
    {
        Word { segments }
    }

    /// A word made of one unquoted literal.
    pub fn literal(text: &str) -> (r: Self)
        ensures
            r@ == seq![SegV::Literal { text: text@, quote: QuoteKind::Unquoted }],
    {
        let mut segments = Vec::new();
        segments.push(WordSegment::Literal { text: string_from_str(text), quote: QuoteKind::Unquoted });
        let r = Word { segments };
        assert(r@ =~= seq![SegV::Literal { text: text@, quote: QuoteKind::Unquoted }]);
        r
    }

    /// Splits `NAME=value` into the name and the word that is assigned.
    pub fn split_assignment(&self) -> (r: Option<(String, Word)>)
        ensures
            match r {
                Some((name, value)) => spec_split_assignment(self@) == Some((name@, value@)),
                None => spec_split_assignment(self@) is None,
            },
    {
        if self.segments.len() == 0 {
            return None;
        }
        let text = match &self.segments[0] {
            WordSegment::Literal { text, quote: QuoteKind::Unquoted } => text,
            _ => {
                return None;
            },
        };
        let chars = chars_of(text.as_str());
        let equals = match find_char(chars.as_slice(), '=') {
            Some(e) => e,
            None => {
                return None;
            },
        };
        let ghost t = chars@;
        let mut name_chars: Vec<char> = Vec::new();
        let mut i: usize = 0;
        while i < equals
            invariant
                0 <= i <= equals < chars@.len(),
                name_chars@ == chars@.subrange(0, i as int),
            decreases equals - i,
        {
            name_chars.push(chars[i]);
            i += 1;
            assert(name_chars@ =~= chars@.subrange(0, i as int));
        }
        if !valid_name_chars(name_chars.as_slice()) {
            return None;
        }
        let mut suffix: Vec<char> = Vec::new();
        let n = chars.len();
        assert(equals < n);
        let mut j: usize = equals + 1;
        while j < chars.len()
            invariant
                equals + 1 <= j <= chars@.len(),
                suffix@ == chars@.subrange(equals + 1, j as int),
            decreases chars@.len() - j,
        {
            suffix.push(chars[j]);
            j += 1;
            assert(suffix@ =~= chars@.subrange(equals + 1, j as int));
        }
        let mut value_segments: Vec<WordSegment> = Vec::new();
        if suffix.len() > 0 {
            value_segments.push(
                WordSegment::Literal {
                    text: string_from_chars(suffix.as_slice()),
                    quote: QuoteKind::Unquoted,
                },
            );
        }
        let ghost head = value_segments@.map_values(|s: WordSegment| s@);
        let mut k: usize = 1;
        while k < self.segments.len()
            invariant
                1 <= k <= self.segments@.len(),
                value_segments@.map_values(|s: WordSegment| s@) == head + self@.subrange(1, k as int),
            decreases self.segments@.len() - k,
        {
            let ghost before = value_segments@;
            let seg = self.segments[k].clone();
            value_segments.push(seg);
            assert(value_segments@ == before.push(seg));
            assert(value_segments@.map_values(|s: WordSegment| s@) =~= before.map_values(|s: WordSegment| s@).push(self@[k as int]));
            assert(self@.subrange(1, k + 1) =~= self@.subrange(1, k as int).push(self@[k as int]));
            k += 1;
            assert(value_segments@.map_values(|s: WordSegment| s@) =~= head + self@.subrange(1, k as int));
        }
        let value = Word { segments: value_segments };
        assert(self@.subrange(1, self@.len() as int) =~= self@.drop_first());
        assert(value@ =~= (if suffix@.len() > 0 {
            seq![SegV::Literal { text: suffix@, quote: QuoteKind::Unquoted }]
        } else {
            Seq::empty()
        }) + self@.drop_first());
        Some((string_from_chars(name_chars.as_slice()), value))
    }

    /// The word's text with quotes removed; expansions appear as written.
    pub fn quote_removed_text(&self) -> (r: String)
        ensures
            r@ == spec_quote_removed(self@),
    {
        let mut out: Vec<char> = Vec::new();
        let mut i: usize = 0;
        while i < self.segments.len()
            invariant
                0 <= i <= self.segments@.len(),
                out@ == spec_quote_removed(self@.subrange(0, i as int)),
            decreases self.segments@.len() - i,
        {
            let piece = seg_text_chars(&self.segments[i]);
            extend_chars(&mut out, piece.as_slice());
            assert(self@.subrange(0, i + 1).drop_last() =~= self@.subrange(0, i as int));
            i += 1;
        }
        assert(self@.subrange(0, self@.len() as int) =~= self@);
        string_from_chars(out.as_slice())
    }

    /// Whether any segment of the word is quoted.
    pub fn is_quoted(&self) -> (b: bool)
        ensures
            b == spec_is_quoted(self@),
    {
        let mut i: usize = 0;
        while i < self.segments.len()
            invariant
                0 <= i <= self.segments@.len(),
                forall|k: int| 0 <= k < i ==> self@[k].quote() == QuoteKind::Unquoted,
            decreases self.segments@.len() - i,
        {
            if self.segments[i].quote_kind() != QuoteKind::Unquoted {
                assert(self@[i as int].quote() != QuoteKind::Unquoted);
                return true;
            }
            i += 1;
        }
        false
    }
}

/// The decimal digits of `n`, most significant first.
pub open spec fn decimal(n: nat) -> Seq<char>
    decreases n,
{
    if n < 10 {
        seq![digit_char(n)]
    } else {
        decimal(n / 10) + seq![digit_char(n % 10)]
    }
}

pub open spec fn digit_char(d: nat) -> char {
    if d == 0 { '0' }
    else if d == 1 { '1' }
    else if d == 2 { '2' }
    else if d == 3 { '3' }
    else if d == 4 { '4' }
    else if d == 5 { '5' }
    else if d == 6 { '6' }
    else if d == 7 { '7' }
    else if d == 8 { '8' }
    else { '9' }
}

pub fn digit_to_char(d: u64) -> (c: char)
    requires
        d < 10,
    ensures
        c == digit_char(d as nat),
{
    if d == 0 { '0' }
    else if d == 1 { '1' }
    else if d == 2 { '2' }
    else if d == 3 { '3' }
    else if d == 4 { '4' }
    else if d == 5 { '5' }
    else if d == 6 { '6' }
    else if d == 7 { '7' }
    else if d == 8 { '8' }
    else { '9' }
}

/// The decimal digits of `n` as characters.
pub fn decimal_chars(n: u64) -> (r: Vec<char>)
    ensures
        r@ == decimal(n as nat),
    decreases n,
{
    if n < 10 {
        let r = vec![digit_to_char(n)];
        assert(r@ =~= seq![digit_char(n as nat)]);
        r
    } else {
        let mut r = decimal_chars(n / 10);
        r.push(digit_to_char(n % 10));
        r
    }
}

/// The status as the decimal text `$?` expands to.
pub fn exit_code_to_string(code: ExitCode) -> (r: String)
    ensures
        r@ == decimal(code.0 as nat),
{
    let v = decimal_chars(code.0 as u64);
    string_from_chars(v.as_slice())
}

/// Output of a command substitution with trailing line breaks removed:
/// each trailing `\n` is dropped together with a `\r` just before it.
pub open spec fn strip_trailing_newlines(s: Seq<char>) -> Seq<char>
    decreases s.len(),
{
    if s.len() > 0 && s.last() == '\n' {
        let t = s.drop_last();
        if t.len() > 0 && t.last() == '\r' {
            strip_trailing_newlines(t.drop_last())
        } else {
            strip_trailing_newlines(t)
        }
    } else {
        s
    }
}

pub fn normalize_command_substitution_output(output: String) -> (r: String)
    ensures
        r@ == strip_trailing_newlines(output@),
{
    let chars = chars_of(output.as_str());
    let mut end: usize = chars.len();
    assert(chars@.subrange(0, chars@.len() as int) =~= chars@);
    while end > 0 && chars[end - 1] == '\n'
        invariant
            0 <= end <= chars@.len(),
            strip_trailing_newlines(chars@) == strip_trailing_newlines(chars@.subrange(0, end as int)),
        decreases end,
    {
        let ghost s = chars@.subrange(0, end as int);
        assert(s.drop_last() =~= chars@.subrange(0, end - 1));
        end -= 1;
        if end > 0 && chars[end - 1] == '\r' {
            assert(s.drop_last().drop_last() =~= chars@.subrange(0, end - 1));
            end -= 1;
        }
    }
    assert(chars@.subrange(0, chars@.len() as int) =~= chars@);
    let mut r: Vec<char> = Vec::new();
    let mut i: usize = 0;
    while i < end
        invariant
            0 <= i <= end <= chars@.len(),
            r@ == chars@.subrange(0, i as int),
        decreases end - i,
    {
        r.push(chars[i]);
        i += 1;
        assert(r@ =~= chars@.subrange(0, i as int));
    }
    string_from_chars(r.as_slice())
}

/// What a segment expands to, with the variables `env` and the last
/// status `last`: single quotes keep `$name` and `$?` as written; an unset
/// variable and a command substitution give nothing.
pub open spec fn expand_segment(s: SegV, env: Seq<(Seq<char>, Seq<char>)>, last: u8) -> Seq<char> {
    match s {
        SegV::Literal { text, .. } => text,
        SegV::Variable { name, quote } => if quote == QuoteKind::SingleQuoted {
            seq!['$'] + name
        } else {
            match table_get(env, name) {
                Some(v) => v,
                None => Seq::empty(),
            }
        },
        SegV::LastStatus { quote } => if quote == QuoteKind::SingleQuoted {
            seq!['$', '?']
        } else {
            decimal(last as nat)
        },
        SegV::CommandSubstitution { .. } => Seq::empty(),
    }
}

/// What a word expands to: its segments' expansions, joined.
pub open spec fn spec_expand(w: Seq<SegV>, env: Seq<(Seq<char>, Seq<char>)>, last: u8) -> Seq<char>
    decreases w.len(),
{
    if w.len() == 0 {
        Seq::empty()
    } else {
        spec_expand(w.drop_last(), env, last) + expand_segment(w.last(), env, last)
    }
}

impl Word {
    /// The word with variables and the last status replaced by their
    /// values in `state`.
    pub fn expand(&self, state: &ShellState) -> (r: String)
        ensures
            r@ == spec_expand(self@, state.env_view(), state.status_view().0),
    {
        let ghost env = state.env_view();
        let last = state.last_exit_status().as_u8();
        let mut out: Vec<char> = Vec::new();
        let mut i: usize = 0;
        while i < self.segments.len()
            invariant
                0 <= i <= self.segments@.len(),
                env == state.env_view(),
                last == state.status_view().0,
                out@ == spec_expand(self@.subrange(0, i as int), env, last),
            decreases self.segments@.len() - i,
        {
            let ghost before = out@;
            match &self.segments[i] {
                WordSegment::Literal { text, .. } => {
                    let t = chars_of(text.as_str());
                    extend_chars(&mut out, t.as_slice());
                },
                WordSegment::Variable { name, quote } => {
                    if *quote == QuoteKind::SingleQuoted {
                        out.push('$');
                        let n = chars_of(name.as_str());
                        extend_chars(&mut out, n.as_slice());
                        assert(out@ =~= before + (seq!['$'] + name@));
                    } else {
                        match state.env_var(name.as_str()) {
                            Some(v) => {
                                let t = chars_of(v);
                                extend_chars(&mut out, t.as_slice());
                            },
                            None => {
                                assert(out@ =~= before + Seq::<char>::empty());
                            },
                        }
                    }
                },
                WordSegment::LastStatus { quote } => {
                    if *quote == QuoteKind::SingleQuoted {
                        out.push('$');
                        out.push('?');
                        assert(out@ =~= before + seq!['$', '?']);
                    } else {
                        let d = decimal_chars(last as u64);
                        extend_chars(&mut out, d.as_slice());
                    }
                },
                WordSegment::CommandSubstitution { .. } => {
                    assert(out@ =~= before + Seq::<char>::empty());
                },
            }
            assert(self@.subrange(0, i + 1).drop_last() =~= self@.subrange(0, i as int));
            i += 1;
        }
        assert(self@.subrange(0, self.segments@.len() as int) =~= self@);
        string_from_chars(out.as_slice())
    }
}

/// Each word expanded in `state`.
pub fn expand_words(state: &ShellState, words: &[Word]) -> (r: Vec<String>)
    ensures
        r@.len() == words@.len(),
        forall|i: int|
            0 <= i < words@.len() ==> (#[trigger] r@[i])@ == spec_expand(
                words@[i]@,
                state.env_view(),
                state.status_view().0,
            ),
{
    let mut out: Vec<String> = Vec::new();
    let mut i: usize = 0;
    while i < words.len()
        invariant
            0 <= i <= words@.len(),
            out@.len() == i,
            forall|j: int|
                0 <= j < i ==> (#[trigger] out@[j])@ == spec_expand(
                    words@[j]@,
                    state.env_view(),
                    state.status_view().0,
                ),
        decreases words@.len() - i,
    {
        out.push(words[i].expand(state));
        i += 1;
    }
    out
}

/// The number of command substitutions among the segments.
pub open spec fn subst_count(w: Seq<SegV>) -> nat
    decreases w.len(),
{
    if w.len() == 0 {
        0
    } else {
        subst_count(w.drop_last()) + if w.last() is CommandSubstitution {
            1nat
        } else {
            0nat
        }
    }
}

/// What a segment expands to when its command substitution printed `out`
/// (the others ignore `out`).
pub open spec fn expand_segment_with(
    s: SegV,
    env: Seq<(Seq<char>, Seq<char>)>,
    last: u8,
    out: Seq<char>,
) -> Seq<char> {
    match s {
        SegV::CommandSubstitution { .. } => strip_trailing_newlines(out),
        _ => expand_segment(s, env, last),
    }
}

/// What a word expands to, its command substitutions having printed
/// `outs`, in order.
pub open spec fn spec_expand_with(
    w: Seq<SegV>,
    env: Seq<(Seq<char>, Seq<char>)>,
    last: u8,
    outs: Seq<Seq<char>>,
) -> Seq<char>
    decreases w.len(),
{
    if w.len() == 0 {
        Seq::empty()
    } else {
        spec_expand_with(w.drop_last(), env, last, outs) + expand_segment_with(
            w.last(),
            env,
            last,
            outs[subst_count(w.drop_last()) as int],
        )
    }
}

/// The text a segment contributes to a pathname pattern: variables and
/// the status expand whatever the quoting.
pub open spec fn pattern_segment_text(
    s: SegV,
    env: Seq<(Seq<char>, Seq<char>)>,
    last: u8,
    out: Seq<char>,
) -> Seq<char> {
    match s {
        SegV::Literal { text, .. } => text,
        SegV::Variable { name, .. } => match table_get(env, name) {
            Some(v) => v,
            None => Seq::empty(),
        },
        SegV::LastStatus { .. } => decimal(last as nat),
        SegV::CommandSubstitution { .. } => strip_trailing_newlines(out),
    }
}

/// The text, pattern tokens and whether there is a wildcard, for a word
/// whose command substitutions printed `outs`: unquoted text is read as a
/// pattern, quoted text literally.
pub open spec fn spec_pattern(
    w: Seq<SegV>,
    env: Seq<(Seq<char>, Seq<char>)>,
    last: u8,
    outs: Seq<Seq<char>>,
) -> (Seq<char>, Seq<GlobV>, bool)
    decreases w.len(),
{
    if w.len() == 0 {
        (Seq::empty(), Seq::empty(), false)
    } else {
        let (text, toks, meta) = spec_pattern(w.drop_last(), env, last, outs);
        let t = pattern_segment_text(w.last(), env, last, outs[subst_count(w.drop_last()) as int]);
        if w.last().quote() == QuoteKind::Unquoted {
            let (pt, pm) = glob_tokens_from(t, 0);
            (text + t, toks + pt, meta || pm)
        } else {
            (text + t, toks + literal_tokens(t), meta)
        }
    }
}

/// A word whose every part is quoted is no pattern: it holds no wildcard,
/// and its pattern is its own text read literally, so it only ever stands
/// for itself.
pub proof fn law_quoted_words_are_not_patterns(
    w: Seq<SegV>,
    env: Seq<(Seq<char>, Seq<char>)>,
    last: u8,
    outs: Seq<Seq<char>>,
)
    requires
        forall|i: int| 0 <= i < w.len() ==> (#[trigger] w[i]).quote() != QuoteKind::Unquoted,
    ensures
        !spec_pattern(w, env, last, outs).2,
        spec_pattern(w, env, last, outs).1 == crate::glob::literal_tokens(
            spec_pattern(w, env, last, outs).0,
        ),
    decreases w.len(),
{
    if w.len() > 0 {
        let rest = w.drop_last();
        assert forall|i: int| 0 <= i < rest.len() implies (#[trigger] rest[i]).quote()
            != QuoteKind::Unquoted by {
            assert(rest[i] == w[i]);
        }
        law_quoted_words_are_not_patterns(rest, env, last, outs);
        let (text, toks, meta) = spec_pattern(rest, env, last, outs);
        let t = pattern_segment_text(w.last(), env, last, outs[subst_count(rest) as int]);
        assert(w.last() == w[w.len() - 1]);
        assert(crate::glob::literal_tokens(text + t) =~= crate::glob::literal_tokens(text)
            + crate::glob::literal_tokens(t));
    }
}

/// Whether `s` is the way a number is written in decimal: ASCII digits,
/// at least one, with no leading zero unless it is `0` itself.
pub open spec fn is_numeral(s: Seq<char>) -> bool {
    &&& s.len() >= 1
    &&& forall|k: int| 0 <= k < s.len() ==> crate::text::is_digit(#[trigger] s[k])
    &&& (s.len() == 1 || s[0] != '0')
}

proof fn lemma_digit_char(d: nat)
    requires
        d < 10,
    ensures
        crate::text::is_digit(digit_char(d)),
        digit_char(d) as nat - '0' as nat == d,
        d >= 1 ==> digit_char(d) != '0',
{
    assert(('0' as nat) == 48 && ('1' as nat) == 49 && ('2' as nat) == 50 && ('3' as nat) == 51
        && ('4' as nat) == 52 && ('5' as nat) == 53 && ('6' as nat) == 54 && ('7' as nat) == 55
        && ('8' as nat) == 56 && ('9' as nat) == 57);
}

/// `decimal(n)` is a numeral whose value is `n`.
pub proof fn lemma_decimal_is_numeral(n: nat)
    ensures
        is_numeral(decimal(n)),
        crate::lexer::digits_value(decimal(n)) == n,
        n >= 1 ==> decimal(n)[0] != '0',
    decreases n,
{
    if n < 10 {
        lemma_digit_char(n);
        let d = decimal(n);
        assert(d.drop_last() =~= Seq::<char>::empty());
        assert(crate::lexer::digits_value(d) == crate::lexer::digits_value(d.drop_last()) * 10
            + (d.last() as nat - '0' as nat) as nat);
    } else {
        let m = n / 10;
        let r = n % 10;
        lemma_decimal_is_numeral(m);
        lemma_digit_char(r);
        let d = decimal(n);
        assert(d == decimal(m) + seq![digit_char(r)]);
        assert(d.drop_last() =~= decimal(m));
        assert(d.last() == digit_char(r));
        assert(m * 10 + r == n);
        assert(d[0] == decimal(m)[0]);
        assert forall|k: int| 0 <= k < d.len() implies crate::text::is_digit(#[trigger] d[k]) by {
            if k < decimal(m).len() {
                assert(d[k] == decimal(m)[k]);
            }
        }
    }
}

/// What `$?` stands for is the last status written as a decimal numeral
/// whose value is that status, both in an argument's pattern text and, out
/// of single quotes, in its plain expansion.
pub proof fn law_status_reads_as_its_number(
    q: QuoteKind,
    env: Seq<(Seq<char>, Seq<char>)>,
    last: u8,
    out: Seq<char>,
)
    ensures
        is_numeral(pattern_segment_text(SegV::LastStatus { quote: q }, env, last, out)),
        crate::lexer::digits_value(pattern_segment_text(SegV::LastStatus { quote: q }, env, last, out))
            == last,
        q != QuoteKind::SingleQuoted ==> expand_segment_with(
            SegV::LastStatus { quote: q },
            env,
            last,
            out,
        ) == pattern_segment_text(SegV::LastStatus { quote: q }, env, last, out),
{
    lemma_decimal_is_numeral(last as nat);
}

/// Out of single quotes a word's pattern text is its plain expansion: the
/// same variables, status and command output, in the same order.
pub proof fn law_pattern_text_is_the_expansion(
    w: Seq<SegV>,
    env: Seq<(Seq<char>, Seq<char>)>,
    last: u8,
    outs: Seq<Seq<char>>,
)
    requires
        forall|i: int| 0 <= i < w.len() ==> (#[trigger] w[i]).quote() != QuoteKind::SingleQuoted,
    ensures
        spec_pattern(w, env, last, outs).0 == spec_expand_with(w, env, last, outs),
    decreases w.len(),
{
    if w.len() > 0 {
        let rest = w.drop_last();
        assert forall|i: int| 0 <= i < rest.len() implies (#[trigger] rest[i]).quote()
            != QuoteKind::SingleQuoted by {
            assert(rest[i] == w[i]);
        }
        law_pattern_text_is_the_expansion(rest, env, last, outs);
        assert(w.last() == w[w.len() - 1]);
        let o = outs[subst_count(rest) as int];
        assert(pattern_segment_text(w.last(), env, last, o) == expand_segment_with(
            w.last(),
            env,
            last,
            o,
        ));
    }
}

/// The text of `chars` as literal pattern tokens.
fn literal_glob_tokens(chars: &Vec<char>) -> (r: Vec<GlobToken>)
    ensures
        tokens_view(r@) == literal_tokens(chars@),
{
    let mut out: Vec<GlobToken> = Vec::new();
    let mut i: usize = 0;
    while i < chars.len()
        invariant
            0 <= i <= chars@.len(),
            tokens_view(out@) == literal_tokens(chars@.subrange(0, i as int)),
        decreases chars@.len() - i,
    {
        let c = crate::text::char_at(chars.as_slice(), i);
        let ghost before = tokens_view(out@);
        out.push(GlobToken::Literal(c));
        assert(tokens_view(out@) =~= before.push(crate::glob::literal_token(c)));
        assert(literal_tokens(chars@.subrange(0, i + 1)) =~= literal_tokens(
            chars@.subrange(0, i as int),
        ).push(crate::glob::literal_token(c)));
        i += 1;
    }
    assert(chars@.subrange(0, chars@.len() as int) =~= chars@);
    out
}

impl Word {
    /// The sources of the word's command substitutions, in order.
    pub fn substitution_sources(&self) -> (r: Vec<String>)
        ensures
            r@.len() == subst_count(self@),
            forall|i: int|
                0 <= i < self@.len() ==> (#[trigger] self@[i] matches SegV::CommandSubstitution {
                    source,
                    ..
                } ==> r@[subst_count(self@.subrange(0, i)) as int]@ == source),
    {
        let mut out: Vec<String> = Vec::new();
        let mut i: usize = 0;
        while i < self.segments.len()
            invariant
                0 <= i <= self.segments@.len(),
                out@.len() == subst_count(self@.subrange(0, i as int)),
                forall|k: int|
                    0 <= k < i ==> (#[trigger] self@[k] matches SegV::CommandSubstitution {
                        source,
                        ..
                    } ==> out@[subst_count(self@.subrange(0, k)) as int]@ == source),
            decreases self.segments@.len() - i,
        {
            assert(self@.subrange(0, i + 1).drop_last() =~= self@.subrange(0, i as int));
            let ghost before = out@;
            match &self.segments[i] {
                WordSegment::CommandSubstitution { source, .. } => {
                    out.push(source.clone());
                },
                _ => {},
            }
            proof {
                assert forall|k: int|
                    0 <= k < i + 1 implies (#[trigger] self@[k] matches SegV::CommandSubstitution {
                        source,
                        ..
                    } ==> out@[subst_count(self@.subrange(0, k)) as int]@ == source) by {
                    if k < i {
                        let wi = self@.subrange(0, i as int);
                        lemma_subst_count_prefix(wi, k + 1);
                        assert(wi.subrange(0, k + 1) =~= self@.subrange(0, k + 1));
                        assert(self@.subrange(0, k + 1).drop_last() =~= self@.subrange(0, k));
                    }
                }
            }
            i += 1;
        }
        assert(self@.subrange(0, self.segments@.len() as int) =~= self@);
        out
    }

    /// The word with variables and the status replaced from `state` and
    /// each command substitution replaced by what it printed, `outputs` in
    /// order, without trailing line breaks.
    pub fn expand_with(&self, state: &ShellState, outputs: &[String]) -> (r: String)
        requires
            outputs@.len() == subst_count(self@),
        ensures
            r@ == spec_expand_with(
                self@,
                state.env_view(),
                state.status_view().0,
                crate::shell::state::strings_view(outputs@),
            ),
    {
        let ghost env = state.env_view();
        let ghost outs = crate::shell::state::strings_view(outputs@);
        let last = state.last_exit_status().as_u8();
        let mut out = String::new();
        let mut used: usize = 0;
        let mut i: usize = 0;
        while i < self.segments.len()
            invariant
                0 <= i <= self.segments@.len(),
                outputs@.len() == subst_count(self@),
                outs == crate::shell::state::strings_view(outputs@),
                env == state.env_view(),
                last == state.status_view().0,
                used == subst_count(self@.subrange(0, i as int)),
                out@ == spec_expand_with(self@.subrange(0, i as int), env, last, outs),
            decreases self.segments@.len() - i,
        {
            proof {
                lemma_subst_count_prefix(self@, i as int + 1);
            }
            let ghost before = out@;
            assert(self@.subrange(0, i + 1).drop_last() =~= self@.subrange(0, i as int));
            match &self.segments[i] {
                WordSegment::Literal { text, .. } => {
                    out.append(text.as_str());
                },
                WordSegment::Variable { name, quote } => {
                    if *quote == QuoteKind::SingleQuoted {
                        out.append("$");
                        out.append(name.as_str());
                        proof {
                            reveal_strlit("$");
                        }
                        assert(out@ =~= before + (seq!['$'] + name@));
                    } else {
                        match state.env_var(name.as_str()) {
                            Some(v) => {
                                out.append(v);
                            },
                            None => {
                                assert(out@ =~= before + Seq::<char>::empty());
                            },
                        }
                    }
                },
                WordSegment::LastStatus { quote } => {
                    if *quote == QuoteKind::SingleQuoted {
                        out.append("$?");
                        proof {
                            reveal_strlit("$?");
                        }
                        assert(out@ =~= before + seq!['$', '?']);
                    } else {
                        let d = exit_code_to_string(ExitCode(last));
                        out.append(d.as_str());
                    }
                },
                WordSegment::CommandSubstitution { .. } => {
                    let o = normalize_command_substitution_output(outputs[used].clone());
                    out.append(o.as_str());
                    used += 1;
                },
            }
            i += 1;
        }
        assert(self@.subrange(0, self.segments@.len() as int) =~= self@);
        out
    }

    /// The pathname pattern of the word, its command substitutions having
    /// printed `outputs`, in order.
    pub fn glob_pattern(&self, state: &ShellState, outputs: &[String]) -> (r: ExpandedGlobWord)
        requires
            outputs@.len() == subst_count(self@),
        ensures
            ({
                let (text, toks, meta) = spec_pattern(
                    self@,
                    state.env_view(),
                    state.status_view().0,
                    crate::shell::state::strings_view(outputs@),
                );
                &&& r.text@ == text
                &&& components_view(r.components@) == split_components(toks)
                &&& r.has_glob_meta == meta
            }),
    {
        let ghost env = state.env_view();
        let ghost outs = crate::shell::state::strings_view(outputs@);
        let last = state.last_exit_status().as_u8();
        let mut text = String::new();
        let mut tokens: Vec<GlobToken> = Vec::new();
        let mut meta = false;
        let mut used: usize = 0;
        let mut i: usize = 0;
        assert(tokens_view(tokens@) =~= Seq::<GlobV>::empty());
        while i < self.segments.len()
            invariant
                0 <= i <= self.segments@.len(),
                outputs@.len() == subst_count(self@),
                outs == crate::shell::state::strings_view(outputs@),
                env == state.env_view(),
                last == state.status_view().0,
                used == subst_count(self@.subrange(0, i as int)),
                (text@, tokens_view(tokens@), meta) == spec_pattern(
                    self@.subrange(0, i as int),
                    env,
                    last,
                    outs,
                ),
            decreases self.segments@.len() - i,
        {
            proof {
                lemma_subst_count_prefix(self@, i as int + 1);
            }
            assert(self@.subrange(0, i + 1).drop_last() =~= self@.subrange(0, i as int));
            let seg = &self.segments[i];
            let piece: String = match seg {
                WordSegment::Literal { text, .. } => text.clone(),
                WordSegment::Variable { name, .. } => match state.env_var(name.as_str()) {
                    Some(v) => v.to_string(),
                    None => String::new(),
                },
                WordSegment::LastStatus { .. } => exit_code_to_string(ExitCode(last)),
                WordSegment::CommandSubstitution { .. } => {
                    let o = normalize_command_substitution_output(outputs[used].clone());
                    used += 1;
                    o
                },
            };
            assert(piece@ == pattern_segment_text(
                self@[i as int],
                env,
                last,
                outs[subst_count(self@.subrange(0, i as int)) as int],
            ));
            text.append(piece.as_str());
            let ghost tv0 = tokens_view(tokens@);
            if seg.quote_kind() == QuoteKind::Unquoted {
                let (pt, pm) = parse_glob_tokens(piece.as_str());
                let mut pt = pt;
                let ghost ptv = tokens_view(pt@);
                tokens.append(&mut pt);
                assert(tokens_view(tokens@) =~= tv0 + ptv);
                meta = meta || pm;
            } else {
                let chars = crate::text::chars_of(piece.as_str());
                let mut lt = literal_glob_tokens(&chars);
                let ghost ltv = tokens_view(lt@);
                tokens.append(&mut lt);
                assert(tokens_view(tokens@) =~= tv0 + ltv);
            }
            i += 1;
        }
        assert(self@.subrange(0, self.segments@.len() as int) =~= self@);
        let components = split_glob_components(tokens);
        ExpandedGlobWord { text, components, has_glob_meta: meta }
    }
}

/// The words a pattern word gives: the matches found on disk, or the word
/// itself when it has no wildcard or nothing matched.
pub fn pathname_results(expanded: ExpandedGlobWord, matches: Vec<String>) -> (r: Vec<String>)
    ensures
        (!expanded.has_glob_meta || matches@.len() == 0) ==> r@.len() == 1 && r@[0]@
            == expanded.text@,
        (expanded.has_glob_meta && matches@.len() > 0) ==> r@ == matches@,
{
    if !expanded.has_glob_meta || matches.len() == 0 {
        let mut r = Vec::new();
        r.push(expanded.text);
        r
    } else {
        matches
    }
}

pub proof fn lemma_subst_count_prefix(w: Seq<SegV>, n: int)
    requires
        0 <= n <= w.len(),
    ensures
        subst_count(w.subrange(0, n)) <= subst_count(w),
    decreases w.len(),
{
    if n < w.len() {
        assert(w.drop_last().subrange(0, n) =~= w.subrange(0, n));
        lemma_subst_count_prefix(w.drop_last(), n);
    } else {
        assert(w.subrange(0, n) =~= w);
    }
}

/// The text of a word made of one unquoted literal.
pub open spec fn unquoted_literal(w: Seq<SegV>) -> Option<Seq<char>> {
    if w.len() == 1 && w[0] is Literal && w[0].quote() == QuoteKind::Unquoted {
        Some(w[0]->Literal_text)
    } else {
        None
    }
}

impl Word {
    /// The text of the word when it is one unquoted literal.
    pub fn as_unquoted_literal(&self) -> (r: Option<&str>)
        ensures
            match r {
                Some(t) => unquoted_literal(self@) == Some(t@),
                None => unquoted_literal(self@) is None,
            },
    {
        if self.segments.len() != 1 {
            return None;
        }
        match &self.segments[0] {
            WordSegment::Literal { text, quote: QuoteKind::Unquoted } => Some(text.as_str()),
            _ => None,
        }
    }
}

} // verus!
