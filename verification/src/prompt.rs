//! The status-bar prompt: one line, one question at a time.
//!
//! Search, replace and goto-line each ask through it. A replace asks two
//! questions in the same prompt: the needle, then the replacement.

use crate::text::{concat_all, graphemes, graphemes_of};
use vstd::prelude::*;

verus! {

#[derive(Debug, Clone, Copy, PartialEq, Eq, Structural)]
pub enum PromptKind {
    Search,
    /// The needle has been entered; this is collecting the replacement.
    Replace,
    /// A line number to jump to.
    GotoLine,
}

#[derive(Debug)]
pub struct Prompt {
    kind: PromptKind,
    input: String,
    /// Set while a replace is collecting its second answer.
    pending_needle: Option<String>,
    /// True when this prompt was opened to replace, so answering the needle
    /// leads to a second question rather than to a jump.
    replace_flow: bool,
}

/// A prompt as its parts.
pub struct PromptView {
    pub kind: PromptKind,
    pub input: Seq<char>,
    pub pending_needle: Option<Seq<char>>,
    pub replace_flow: bool,
}

impl View for Prompt {
    type V = PromptView;

    closed spec fn view(&self) -> PromptView {
        PromptView {
            kind: self.kind,
            input: self.input@,
            pending_needle: match self.pending_needle {
                Some(s) => Some(s@),
                None => None,
            },
            replace_flow: self.replace_flow,
        }
    }
}

/// What the prompt says before the input.
pub open spec fn label_of(kind: PromptKind) -> Seq<char> {
    match kind {
        PromptKind::Search => "Search:"@,
        PromptKind::Replace => "Replace with:"@,
        PromptKind::GotoLine => "Go to line:"@,
    }
}

/// Each prompt asks its own question: `Search:`, `Replace with:` and
/// `Go to line:`.
pub proof fn law_prompt_questions()
    ensures
        label_of(PromptKind::Search) == seq!['S', 'e', 'a', 'r', 'c', 'h', ':'],
        label_of(PromptKind::Replace) == seq![
            'R',
            'e',
            'p',
            'l',
            'a',
            'c',
            'e',
            ' ',
            'w',
            'i',
            't',
            'h',
            ':',
        ],
        label_of(PromptKind::GotoLine) == seq!['G', 'o', ' ', 't', 'o', ' ', 'l', 'i', 'n', 'e', ':'],
{
    reveal_strlit("Search:");
    reveal_strlit("Replace with:");
    reveal_strlit("Go to line:");
    assert("Search:"@ =~= seq!['S', 'e', 'a', 'r', 'c', 'h', ':']);
    assert("Replace with:"@ =~= seq!['R', 'e', 'p', 'l', 'a', 'c', 'e', ' ', 'w', 'i', 't', 'h', ':']);
    assert("Go to line:"@ =~= seq!['G', 'o', ' ', 't', 'o', ' ', 'l', 'i', 'n', 'e', ':']);
}

/// The input with its last grapheme removed.
pub open spec fn without_last_grapheme(input: Seq<char>) -> Seq<char> {
    let parts = graphemes_of(input);
    if parts.len() == 0 {
        Seq::empty()
    } else {
        concat_all(parts.drop_last())
    }
}

proof fn lemma_concat_take(parts: Seq<Seq<char>>, i: int)
    requires
        0 <= i < parts.len(),
    ensures
        concat_all(parts.take(i + 1)) == concat_all(parts.take(i)) + parts[i],
{
    assert(parts.take(i + 1).drop_last() =~= parts.take(i));
}

impl Prompt {
    pub fn new(kind: PromptKind) -> (p: Self)
        ensures
            p@ == (PromptView {
                kind,
                input: Seq::empty(),
                pending_needle: None,
                replace_flow: false,
            }),
    {
        Prompt { kind, input: String::new(), pending_needle: None, replace_flow: false }
    }

    pub fn kind(&self) -> (k: PromptKind)
        ensures
            k == self@.kind,
    {
        self.kind
    }

    pub fn input(&self) -> (s: &str)
        ensures
            s@ == self@.input,
    {
        self.input.as_str()
    }

    pub fn label(&self) -> (l: &'static str)
        ensures
            l@ == label_of(self@.kind),
    {
        match self.kind {
            PromptKind::Search => "Search:",
            PromptKind::Replace => "Replace with:",
            PromptKind::GotoLine => "Go to line:",
        }
    }

    pub fn insert_char(&mut self, c: char)
        ensures
            final(self)@ == (PromptView { input: old(self)@.input.push(c), ..old(self)@ }),
    {
        self.input.push(c);
    }

    /// Remove one grapheme, not one byte or char: the prompt accepts the same
    /// text the buffer does, including CJK and combining sequences.
    ///
    /// What is left is a prefix of what was there, shorter unless the input
    /// was already empty.
    pub fn delete_backward(&mut self)
        ensures
            final(self)@ == (PromptView {
                input: without_last_grapheme(old(self)@.input),
                ..old(self)@
            }),
            old(self)@.input.len() == 0 ==> final(self)@.input.len() == 0,
            old(self)@.input.len() > 0 ==> final(self)@.input.len() < old(self)@.input.len(),
            final(self)@.input == old(self)@.input.subrange(0, final(self)@.input.len() as int),
    {
        let parts = graphemes(self.input.as_str());
        let ghost views = parts@.map_values(|p: String| p@);
        let mut kept = String::new();
        let keep: usize = if parts.len() > 0 {
            parts.len() - 1
        } else {
            0
        };
        let mut i: usize = 0;
        while i < keep
            invariant
                i <= keep,
                keep <= parts@.len(),
                views == parts@.map_values(|p: String| p@),
                kept@ == concat_all(views.take(i as int)),
            decreases keep - i,
        {
            proof {
                lemma_concat_take(views, i as int);
            }
            kept.append(parts[i].as_str());
            i = i + 1;
        }
        proof {
            if views.len() > 0 {
                assert(views.take(keep as int) =~= views.drop_last());
                assert(views.last() == parts@[views.len() - 1]@);
                assert(concat_all(views) == concat_all(views.drop_last()) + views.last());
                assert(concat_all(views).subrange(0, kept@.len() as int) =~= kept@);
            } else {
                assert(kept@ =~= self.input@);
            }
        }
        self.input = kept;
    }

    /// Put an answer back after rejecting it: a prompt that clears itself on
    /// a typo makes the user retype the whole thing.
    pub fn restore_input(&mut self, input: String)
        ensures
            final(self)@ == (PromptView { input: input@, ..old(self)@ }),
    {
        self.input = input;
    }

    /// The input, leaving the prompt empty.
    pub fn take_input(&mut self) -> (taken: String)
        ensures
            taken@ == old(self)@.input,
            final(self)@ == (PromptView { input: Seq::empty(), ..old(self)@ }),
    {
        let mut taken = String::new();
        std::mem::swap(&mut taken, &mut self.input);
        taken
    }

    pub fn set_pending_needle(&mut self, needle: String)
        ensures
            final(self)@ == (PromptView { pending_needle: Some(needle@), ..old(self)@ }),
    {
        self.pending_needle = Some(needle);
    }

    pub fn pending_needle(&self) -> (needle: Option<&str>)
        ensures
            match needle {
                Some(s) => self@.pending_needle == Some(s@),
                None => self@.pending_needle is None,
            },
    {
        match &self.pending_needle {
            Some(s) => Some(s.as_str()),
            None => None,
        }
    }

    /// Mark this as the first half of a replace, so Enter collects the needle
    /// and asks for the replacement instead of jumping to the match.
    pub fn become_replace_after_needle(&mut self)
        ensures
            final(self)@ == (PromptView { replace_flow: true, ..old(self)@ }),
    {
        self.replace_flow = true;
    }

    pub fn is_replace_flow(&self) -> (b: bool)
        ensures
            b == self@.replace_flow,
    {
        self.replace_flow
    }

    /// Move to the second question, keeping the prompt open: only the label
    /// and where the answer goes change, and the replace flow is spent.
    pub fn become_replace(&mut self)
        ensures
            final(self)@ == (PromptView {
                kind: PromptKind::Replace,
                replace_flow: false,
                ..old(self)@
            }),
    {
        self.kind = PromptKind::Replace;
        self.replace_flow = false;
    }
}

} // verus!
