//! What the prompt shows. Running the prompt program and redrawing are left
//! to the binary; what it is asked and what its answer means are here.
use vstd::prelude::*;
use vstd::string::StringExecFns;

use crate::config::PromptMode;
use crate::expand::{decimal, decimal_chars};
use crate::shell::{ShellError, ShellResult};
use crate::text::{char_at, chars_of, string_from_chars, trim, trim_chars};

verus! {

/// The parts of a prompt: what is shown before the line in insert mode,
/// on the right, after the insert prompt in normal mode, and before
/// continuation lines.
#[derive(Debug, Clone, PartialEq, Eq)]
pub struct PromptFrame {
    pub insert_prompt: String,
    pub right_prompt: String,
    pub normal_indicator: String,
    pub multiline_prompt: String,
}

impl PromptFrame {
    /// The frame around a rendered insert prompt: nothing on the right,
    /// `: ` in normal mode, `> ` on continuation lines.
    pub fn around(insert_prompt: String) -> (r: Self)
        ensures
            r.insert_prompt@ == insert_prompt@,
            r.right_prompt@ == Seq::<char>::empty(),
            r.normal_indicator@ == ": "@,
            r.multiline_prompt@ == "> "@,
    {
        PromptFrame {
            insert_prompt,
            right_prompt: String::new(),
            normal_indicator: ": ".to_string(),
            multiline_prompt: "> ".to_string(),
        }
    }

    /// What stands before the line: the insert prompt, followed in vi
    /// normal mode by the normal-mode indicator.
    pub fn indicator(&self, vi_normal: bool) -> (r: String)
        ensures
            r@ == if vi_normal {
                self.insert_prompt@ + self.normal_indicator@
            } else {
                self.insert_prompt@
            },
    {
        let mut out = self.insert_prompt.clone();
        if vi_normal {
            out.append(self.normal_indicator.as_str());
        }
        out
    }

    /// A copy that keeps every part.
    pub fn duplicate(&self) -> (r: Self)
        ensures
            r.insert_prompt@ == self.insert_prompt@,
            r.right_prompt@ == self.right_prompt@,
            r.normal_indicator@ == self.normal_indicator@,
            r.multiline_prompt@ == self.multiline_prompt@,
    {
        PromptFrame {
            insert_prompt: self.insert_prompt.clone(),
            right_prompt: self.right_prompt.clone(),
            normal_indicator: self.normal_indicator.clone(),
            multiline_prompt: self.multiline_prompt.clone(),
        }
    }
}

/// Whether `f` is the shell's own prompt: `$ `, nothing on the right,
/// `: ` in normal mode, `> ` on continuation lines.
pub open spec fn is_default_frame(f: PromptFrame) -> bool {
    &&& f.insert_prompt@ == "$ "@
    &&& f.right_prompt@ == Seq::<char>::empty()
    &&& f.normal_indicator@ == ": "@
    &&& f.multiline_prompt@ == "> "@
}

impl Default for PromptFrame {
    fn default() -> (r: Self)
        ensures
            is_default_frame(r),
    {
        PromptFrame::around("$ ".to_string())
    }
}

/// The text shown while searching history for `term`.
pub fn history_search_indicator(term: &str) -> (r: String)
    ensures
        r@ == "(history search: "@ + term@ + ") "@,
{
    let mut out = "(history search: ".to_string();
    out.append(term);
    out.append(") ");
    out
}

/// The shell's own prompt.
#[derive(Debug, Default, Clone, Copy)]
pub struct FallbackPromptRenderer;

impl FallbackPromptRenderer {
    pub fn render_frame(&self) -> (r: PromptFrame)
        ensures
            is_default_frame(r),
    {
        PromptFrame::default()
    }
}

/// What the characters of `bytes` are, read as UTF-8 with each invalid
/// sequence replaced by U+FFFD (`String::from_utf8_lossy`).
pub uninterp spec fn utf8_lossy(bytes: Seq<u8>) -> Seq<char>;

/// `String::from_utf8_lossy`. Claimed: the result is `utf8_lossy` of the
/// bytes, and bytes that are all ASCII come out as the same characters.
/// How other sequences decode is left unstated.
#[verifier::external_body]
fn text_from_bytes(bytes: &[u8]) -> (r: String)
    ensures
        r@ == utf8_lossy(bytes@),
        (forall|i: int| 0 <= i < bytes@.len() ==> #[trigger] bytes@[i] < 128) ==> r@.len()
            == bytes@.len() && forall|i: int|
            0 <= i < bytes@.len() ==> #[trigger] r@[i] as u32 == bytes@[i] as u32,
{
    String::from_utf8_lossy(bytes).into_owned()
}

/// `s` without the line ends (`\n`, `\r`) at its end.
pub open spec fn without_line_ends(s: Seq<char>) -> Seq<char>
    decreases s.len(),
{
    if s.len() > 0 && (s.last() == '\n' || s.last() == '\r') {
        without_line_ends(s.drop_last())
    } else {
        s
    }
}

fn strip_line_ends(s: &[char]) -> (r: Vec<char>)
    ensures
        r@ == without_line_ends(s@),
{
    let mut end = s.len();
    assert(s@.subrange(0, end as int) =~= s@);
    while end > 0 && (char_at(s, end - 1) == '\n' || char_at(s, end - 1) == '\r')
        invariant
            end <= s@.len(),
            without_line_ends(s@.subrange(0, end as int)) == without_line_ends(s@),
        decreases end,
    {
        assert(s@.subrange(0, end as int).drop_last() =~= s@.subrange(0, end - 1));
        end -= 1;
    }
    let mut out: Vec<char> = Vec::new();
    let mut i: usize = 0;
    while i < end
        invariant
            i <= end <= s@.len(),
            out@ == s@.subrange(0, i as int),
        decreases end - i,
    {
        out.push(char_at(s, i));
        i += 1;
        assert(out@ =~= s@.subrange(0, i as int));
    }
    assert(s@.subrange(0, end as int) =~= out@);
    out
}

/// The prompt program's insert prompt from how it ended and the text it
/// printed: a failure is an error that carries its trimmed stderr; its
/// stdout without trailing line ends is the prompt, unless that is empty.
pub open spec fn prompt_from_text(success: bool, stdout: Seq<char>, stderr: Seq<char>) -> Result<
    Seq<char>,
    Seq<char>,
> {
    if !success {
        let err = trim(stderr);
        if err.len() == 0 {
            Err("starship prompt failed"@)
        } else {
            Err("starship prompt failed: "@ + err)
        }
    } else {
        let text = without_line_ends(stdout);
        if text.len() == 0 {
            Err("starship prompt returned empty output"@)
        } else {
            Ok(text)
        }
    }
}

/// The same, from the bytes the program wrote, read as UTF-8 the lossy way.
pub open spec fn rendered_prompt(success: bool, stdout: Seq<u8>, stderr: Seq<u8>) -> Result<
    Seq<char>,
    Seq<char>,
> {
    prompt_from_text(success, utf8_lossy(stdout), utf8_lossy(stderr))
}

/// A prompt drawn by the `starship` program.
#[derive(Debug, Clone)]
pub struct StarshipPromptRenderer {
    binary: String,
}

impl StarshipPromptRenderer {
    pub closed spec fn binary_view(&self) -> Seq<char> {
        self.binary@
    }

    pub fn new(binary: &str) -> (r: Self)
        ensures
            r.binary_view() == binary@,
    {
        StarshipPromptRenderer { binary: binary.to_string() }
    }

    /// The program to run.
    pub fn binary(&self) -> (r: &str)
        ensures
            r@ == self.binary_view(),
    {
        self.binary.as_str()
    }

    /// The program's arguments for the last status: `prompt --status=N`.
    pub fn prompt_arguments(&self, status: u8) -> (r: Vec<String>)
        ensures
            r@.len() == 2,
            r@[0]@ == "prompt"@,
            r@[1]@ == "--status="@ + decimal(status as nat),
    {
        let mut flag = "--status=".to_string();
        let digits = decimal_chars(status as u64);
        let d = string_from_chars(digits.as_slice());
        flag.append(d.as_str());
        let mut args: Vec<String> = Vec::new();
        args.push("prompt".to_string());
        args.push(flag);
        args
    }

    /// The insert prompt the program's answer gives, or the error it means,
    /// from the text it printed on stdout and on stderr.
    pub fn left_prompt_from_text(&self, success: bool, stdout: &str, stderr: &str) -> (r:
        ShellResult<String>)
        ensures
            match prompt_from_text(success, stdout@, stderr@) {
                Ok(text) => r matches Ok(p) && p@ == text,
                Err(msg) => r matches Err(ShellError::Message(m)) && m@ == msg,
            },
    {
        if !success {
            let chars = chars_of(stderr);
            let t = trim_chars(chars.as_slice());
            if t.len() == 0 {
                return Err(ShellError::message("starship prompt failed".to_string()));
            }
            let mut reason = "starship prompt failed: ".to_string();
            let detail = string_from_chars(t.as_slice());
            reason.append(detail.as_str());
            return Err(ShellError::message(reason));
        }
        let chars = chars_of(stdout);
        let kept = strip_line_ends(chars.as_slice());
        if kept.len() == 0 {
            return Err(ShellError::message("starship prompt returned empty output".to_string()));
        }
        Ok(string_from_chars(kept.as_slice()))
    }

    /// The insert prompt the program's answer gives, or the error it means.
    pub fn left_prompt_from(&self, success: bool, stdout: &[u8], stderr: &[u8]) -> (r:
        ShellResult<String>)
        ensures
            match rendered_prompt(success, stdout@, stderr@) {
                Ok(text) => r matches Ok(p) && p@ == text,
                Err(msg) => r matches Err(ShellError::Message(m)) && m@ == msg,
            },
    {
        if !success {
            let err = text_from_bytes(stderr);
            self.left_prompt_from_text(false, "", err.as_str())
        } else {
            let out = text_from_bytes(stdout);
            self.left_prompt_from_text(true, out.as_str(), "")
        }
    }

    /// The frame around the program's answer.
    pub fn frame_from(&self, success: bool, stdout: &[u8], stderr: &[u8]) -> (r: ShellResult<
        PromptFrame,
    >)
        ensures
            match rendered_prompt(success, stdout@, stderr@) {
                Ok(text) => r matches Ok(f) && f.insert_prompt@ == text && f.right_prompt@
                    == Seq::<char>::empty() && f.normal_indicator@ == ": "@ && f.multiline_prompt@
                    == "> "@,
                Err(msg) => r matches Err(ShellError::Message(m)) && m@ == msg,
            },
    {
        match self.left_prompt_from(success, stdout, stderr) {
            Ok(p) => Ok(PromptFrame::around(p)),
            Err(e) => Err(e),
        }
    }
}

impl Default for StarshipPromptRenderer {
    fn default() -> (r: Self)
        ensures
            r.binary_view() == "starship"@,
    {
        StarshipPromptRenderer::new("starship")
    }
}

/// The prompt the configuration asks for, falling back to the shell's own.
#[derive(Debug, Clone, Copy)]
pub struct ConfiguredPromptRenderer {
    fallback: FallbackPromptRenderer,
}

impl ConfiguredPromptRenderer {
    pub fn new() -> Self {
        ConfiguredPromptRenderer { fallback: FallbackPromptRenderer }
    }

    /// Whether the prompt program is tried: in every mode but `Internal`.
    pub fn tries_starship(&self, mode: PromptMode) -> (b: bool)
        ensures
            b == (mode != PromptMode::Internal),
    {
        match mode {
            PromptMode::Internal => false,
            PromptMode::Starship | PromptMode::Auto => true,
        }
    }

    /// The frame shown: the program's, or the shell's own when it failed.
    pub fn settle(&self, starship: ShellResult<PromptFrame>) -> (r: PromptFrame)
        ensures
            match starship {
                Ok(f) => r == f,
                Err(_) => is_default_frame(r),
            },
    {
        match starship {
            Ok(frame) => frame,
            Err(_) => self.fallback.render_frame(),
        }
    }

    /// The frame when the program is not tried.
    pub fn internal_frame(&self) -> (r: PromptFrame)
        ensures
            is_default_frame(r),
    {
        self.fallback.render_frame()
    }
}

impl Default for ConfiguredPromptRenderer {
    fn default() -> Self {
        ConfiguredPromptRenderer::new()
    }
}

/// The prompt the line editor shows: the last frame rendered, kept until
/// the next one. The menu's prompt follows the insert prompt.
pub struct ReedlinePromptAdapter<R> {
    renderer: R,
    frame: PromptFrame,
}

impl<R> ReedlinePromptAdapter<R> {
    pub closed spec fn frame_view(&self) -> PromptFrame {
        self.frame
    }

    pub closed spec fn renderer_view(&self) -> R {
        self.renderer
    }

    /// An adapter showing the shell's own prompt until the first refresh.
    pub fn new(renderer: R) -> (r: Self)
        ensures
            r.renderer_view() == renderer,
            is_default_frame(r.frame_view()),
    {
        ReedlinePromptAdapter { renderer, frame: PromptFrame::default() }
    }

    /// As `new`, with the menu's prompt set to the insert prompt.
    pub fn with_menu_prompt(renderer: R, menu_prompt: &mut String) -> (r: Self)
        ensures
            r.renderer_view() == renderer,
            is_default_frame(r.frame_view()),
            final(menu_prompt)@ == r.frame_view().insert_prompt@,
    {
        let adapter = ReedlinePromptAdapter::new(renderer);
        *menu_prompt = adapter.frame.insert_prompt.clone();
        adapter
    }

    pub fn renderer(&self) -> (r: &R)
        ensures
            *r == self.renderer_view(),
    {
        &self.renderer
    }

    /// Takes a newly rendered frame, or the shell's own prompt when
    /// rendering failed, and points the menu's prompt at its insert prompt.
    pub fn refresh(&mut self, rendered: ShellResult<PromptFrame>, menu_prompt: &mut String)
        ensures
            final(self).renderer_view() == old(self).renderer_view(),
            match rendered {
                Ok(f) => final(self).frame_view() == f,
                Err(_) => is_default_frame(final(self).frame_view()),
            },
            final(menu_prompt)@ == final(self).frame_view().insert_prompt@,
    {
        self.frame = match rendered {
            Ok(frame) => frame,
            Err(_) => PromptFrame::default(),
        };
        *menu_prompt = self.frame.insert_prompt.clone();
    }

    /// What stands left of the prompt line: two blank lines.
    pub fn render_prompt_left(&self) -> (r: &'static str)
        ensures
            r@ == "\n\n"@,
    {
        "\n\n"
    }

    pub fn render_prompt_right(&self) -> (r: &str)
        ensures
            r@ == self.frame_view().right_prompt@,
    {
        self.frame.right_prompt.as_str()
    }

    /// The indicator before the line: the insert prompt, with the normal
    /// mode indicator after it in vi normal mode.
    pub fn render_prompt_indicator(&self, vi_normal: bool) -> (r: String)
        ensures
            r@ == if vi_normal {
                self.frame_view().insert_prompt@ + self.frame_view().normal_indicator@
            } else {
                self.frame_view().insert_prompt@
            },
    {
        self.frame.indicator(vi_normal)
    }

    pub fn render_prompt_multiline_indicator(&self) -> (r: &str)
        ensures
            r@ == self.frame_view().multiline_prompt@,
    {
        self.frame.multiline_prompt.as_str()
    }

    pub fn render_prompt_history_search_indicator(&self, term: &str) -> (r: String)
        ensures
            r@ == "(history search: "@ + term@ + ") "@,
    {
        history_search_indicator(term)
    }
}

} // verus!
