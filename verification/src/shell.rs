//! The application shell's decisions: where a key goes, what an action the
//! panels left alone does, what the status bar says, and what a change on
//! disk means for the buffer on screen.
//!
//! Each is decided here from plain facts and carried out by the caller.

use crate::prompt::{label_of, Prompt, PromptKind, PromptView};
use crate::search::Direction;
use crate::status::{Emphasis, Segment};
use vstd::prelude::*;

verus! {

/// Shown when there is nothing more urgent to say: bindings nobody can find
/// are bindings that do not exist.
pub const HINT: &'static str = "Tab focus  ·  Enter open  ·  Ctrl+S save  ·  Ctrl+Q quit";

/// Between status segments. Whitespace rather than a glyph, which would need
/// a colour of its own.
pub const SEGMENT_GAP: &'static str = "  ";

/// Who gets a key.
#[derive(Debug, Clone, Copy, PartialEq, Eq, Structural)]
pub enum Dispatch {
    /// The picker owns the keyboard while it is up.
    Picker,
    /// An open prompt owns it next, so a chord bound to an edit cannot fire
    /// while a search term is being typed.
    Prompt,
    /// A bound action: offered to the focused panel, then to the app, then
    /// the raw key to the panel. `clear` says whether the status and anything
    /// pending are retired first.
    Bound { clear: bool },
    /// Unbound and printable: text for the focused panel.
    Text(char),
    /// Unbound and not text: the raw key, which a panel may still want.
    Raw,
}

/// What the keymap says a key is bound to, as far as dispatch cares.
#[derive(Debug, Clone, Copy, PartialEq, Eq, Structural)]
pub enum Binding {
    /// Quitting or closing a tab: these ask "press it again", so the status
    /// that carries the question must survive the key that answers it.
    Confirming,
    /// Any other action.
    Plain,
}

/// Where a key goes. Every key but a confirming one retires the status, so
/// a confirmation is answered by the very next key or not at all. A chord
/// (Ctrl or Alt held) is never text.
pub open spec fn spec_dispatch(picker_open: bool, prompt_open: bool, bound: Option<Binding>, printable: Option<char>, chorded: bool) -> Dispatch {
    if picker_open {
        Dispatch::Picker
    } else if prompt_open {
        Dispatch::Prompt
    } else {
        match bound {
            Some(b) => Dispatch::Bound { clear: b != Binding::Confirming },
            None => match printable {
                Some(c) if !chorded => Dispatch::Text(c),
                _ => Dispatch::Raw,
            },
        }
    }
}

/// Where every key goes: the picker takes every key while it is up, then an
/// open prompt; otherwise a bound key is its action, retiring the status
/// unless it is a confirming one; an unbound printable key with no Ctrl or
/// Alt is text, exactly that character; anything else is the raw key.
pub proof fn law_who_gets_a_key(
    picker_open: bool,
    prompt_open: bool,
    bound: Option<Binding>,
    printable: Option<char>,
    chorded: bool,
)
    ensures
        ({
            let d = spec_dispatch(picker_open, prompt_open, bound, printable, chorded);
            &&& d == Dispatch::Picker <==> picker_open
            &&& d == Dispatch::Prompt <==> !picker_open && prompt_open
            &&& d is Bound <==> !picker_open && !prompt_open && bound is Some
            &&& d is Bound ==> (d->clear <==> bound != Some(Binding::Confirming))
            &&& d is Text <==> !picker_open && !prompt_open && bound is None && printable is Some
                && !chorded
            &&& d is Text ==> Some(d->0) == printable
            &&& d == Dispatch::Raw <==> !picker_open && !prompt_open && bound is None && (
            printable is None || chorded)
        }),
{
}

/// A save says what became of it: `Saved.` when it went through, and when it
/// did not, `Save failed: ` and then the reason, word for word.
pub proof fn law_a_save_says_what_happened(reason: Seq<char>)
    ensures
        spec_saved(Ok(())) == seq!['S', 'a', 'v', 'e', 'd', '.'],
        spec_saved(Err(reason)) == seq![
            'S',
            'a',
            'v',
            'e',
            ' ',
            'f',
            'a',
            'i',
            'l',
            'e',
            'd',
            ':',
            ' ',
        ] + reason,
{
    reveal_strlit("Saved.");
    reveal_strlit("Save failed: ");
    assert("Saved."@ =~= seq!['S', 'a', 'v', 'e', 'd', '.']);
    assert("Save failed: "@ =~= seq!['S', 'a', 'v', 'e', ' ', 'f', 'a', 'i', 'l', 'e', 'd', ':', ' ']);
}

/// The left of the status bar: an open prompt outranks everything and shows
/// its question, a space and what has been typed; with none, the message;
/// with neither, the hint.
pub proof fn law_the_left_of_the_bar(prompt: Option<PromptView>, status: Option<Seq<char>>)
    ensures
        prompt matches Some(p) ==> spec_status_left(prompt, status) == label_of(p.kind) + seq![' ']
            + p.input,
        prompt is None ==> (status matches Some(m) ==> spec_status_left(prompt, status) == m),
        prompt is None && status is None ==> spec_status_left(prompt, status) == HINT@,
{
}

/// Where a key goes.
pub fn dispatch(picker_open: bool, prompt_open: bool, bound: Option<Binding>, printable: Option<char>, chorded: bool) -> (d: Dispatch)
    ensures
        d == spec_dispatch(picker_open, prompt_open, bound, printable, chorded),
{
    if picker_open {
        return Dispatch::Picker;
    }
    if prompt_open {
        return Dispatch::Prompt;
    }
    match bound {
        Some(b) => Dispatch::Bound { clear: b != Binding::Confirming },
        None => match printable {
            Some(c) => if !chorded {
                Dispatch::Text(c)
            } else {
                Dispatch::Raw
            },
            None => Dispatch::Raw,
        },
    }
}

/// The actions the app itself answers when no panel does.
#[derive(Debug, Clone, Copy, PartialEq, Eq, Structural)]
pub enum AppAction {
    FocusNext,
    OpenFilePicker,
    OpenProjectSearch,
    OpenCommandPalette,
    Quit,
    NextTab,
    PrevTab,
    CloseTab,
    /// Counted from one.
    GoToTab(u8),
    Save,
    GotoLine,
    SearchOpen,
    ReplaceOpen,
    SearchNext,
    SearchPrevious,
    /// Anything else: not the app's, so it falls through to the raw key.
    Other,
}

/// What the app does for an action.
#[derive(Debug, Clone, Copy, PartialEq, Eq, Structural)]
pub enum AppStep {
    CycleFocus,
    OpenFilePicker,
    OpenProjectSearch,
    OpenCommandPalette,
    RequestQuit,
    NextTab,
    PrevTab,
    /// Close this tab, asking first if it holds unsaved work.
    RequestCloseTab(usize),
    /// Make this tab the visible one; a tab past the last is nothing, not
    /// the last one.
    ActivateTab(usize),
    Save,
    /// Open the prompt asking this; `replace` when it is the first half of a
    /// replace.
    OpenPrompt { kind: PromptKind, replace: bool },
    /// Step to the next match of the last search in this direction.
    Jump(Direction),
    /// A search step with nothing searched yet says so.
    NothingToSearch,
    /// Not the app's action.
    NotMine,
}

/// What the app does for an action no panel claimed, with the active tab
/// and whether anything has been searched for yet.
pub open spec fn spec_app_step(action: AppAction, active: usize, searched: bool) -> AppStep {
    match action {
        AppAction::FocusNext => AppStep::CycleFocus,
        AppAction::OpenFilePicker => AppStep::OpenFilePicker,
        AppAction::OpenProjectSearch => AppStep::OpenProjectSearch,
        AppAction::OpenCommandPalette => AppStep::OpenCommandPalette,
        AppAction::Quit => AppStep::RequestQuit,
        AppAction::NextTab => AppStep::NextTab,
        AppAction::PrevTab => AppStep::PrevTab,
        AppAction::CloseTab => AppStep::RequestCloseTab(active),
        AppAction::GoToTab(n) => AppStep::ActivateTab(if n == 0 { 0 } else { (n - 1) as usize }),
        AppAction::Save => AppStep::Save,
        AppAction::GotoLine => AppStep::OpenPrompt { kind: PromptKind::GotoLine, replace: false },
        AppAction::SearchOpen => AppStep::OpenPrompt { kind: PromptKind::Search, replace: false },
        AppAction::ReplaceOpen => AppStep::OpenPrompt { kind: PromptKind::Search, replace: true },
        AppAction::SearchNext => if searched {
            AppStep::Jump(Direction::Forward)
        } else {
            AppStep::NothingToSearch
        },
        AppAction::SearchPrevious => if searched {
            AppStep::Jump(Direction::Backward)
        } else {
            AppStep::NothingToSearch
        },
        AppAction::Other => AppStep::NotMine,
    }
}

/// Each action does its own thing: the tab keys go forward and back, close
/// the tab on screen, and jump to the tab a digit names counting from one;
/// a search step goes in its own direction once something has been searched
/// for and otherwise says there is nothing; the prompts open asking their
/// own question; and an action that is not the app's falls through.
pub proof fn law_each_action_does_its_own_thing(action: AppAction, active: usize, searched: bool)
    ensures
        ({
            let s = spec_app_step(action, active, searched);
            &&& action == AppAction::FocusNext <==> s == AppStep::CycleFocus
            &&& action == AppAction::OpenFilePicker <==> s == AppStep::OpenFilePicker
            &&& action == AppAction::OpenProjectSearch <==> s == AppStep::OpenProjectSearch
            &&& action == AppAction::OpenCommandPalette <==> s == AppStep::OpenCommandPalette
            &&& action == AppAction::Quit <==> s == AppStep::RequestQuit
            &&& action == AppAction::NextTab <==> s == AppStep::NextTab
            &&& action == AppAction::PrevTab <==> s == AppStep::PrevTab
            &&& action == AppAction::Save <==> s == AppStep::Save
            &&& action == AppAction::Other <==> s == AppStep::NotMine
            &&& action == AppAction::CloseTab <==> s == AppStep::RequestCloseTab(active)
            &&& s is RequestCloseTab ==> action == AppAction::CloseTab
            &&& (action matches AppAction::GoToTab(n) ==> s matches AppStep::ActivateTab(k) && (n
                == 0 ==> k == 0) && (n > 0 ==> k + 1 == n))
            &&& action == AppAction::GotoLine <==> s == (AppStep::OpenPrompt {
                kind: PromptKind::GotoLine,
                replace: false,
            })
            &&& action == AppAction::SearchOpen <==> s == (AppStep::OpenPrompt {
                kind: PromptKind::Search,
                replace: false,
            })
            &&& action == AppAction::ReplaceOpen <==> s == (AppStep::OpenPrompt {
                kind: PromptKind::Search,
                replace: true,
            })
            &&& s == AppStep::Jump(Direction::Forward) <==> (action == AppAction::SearchNext
                && searched)
            &&& s == AppStep::Jump(Direction::Backward) <==> (action == AppAction::SearchPrevious
                && searched)
            &&& s == AppStep::NothingToSearch <==> ((action == AppAction::SearchNext || action
                == AppAction::SearchPrevious) && !searched)
        }),
{
}

/// What the app does for an action no panel claimed.
pub fn app_step(action: AppAction, active: usize, searched: bool) -> (s: AppStep)
    ensures
        s == spec_app_step(action, active, searched),
{
    match action {
        AppAction::FocusNext => AppStep::CycleFocus,
        AppAction::OpenFilePicker => AppStep::OpenFilePicker,
        AppAction::OpenProjectSearch => AppStep::OpenProjectSearch,
        AppAction::OpenCommandPalette => AppStep::OpenCommandPalette,
        AppAction::Quit => AppStep::RequestQuit,
        AppAction::NextTab => AppStep::NextTab,
        AppAction::PrevTab => AppStep::PrevTab,
        AppAction::CloseTab => AppStep::RequestCloseTab(active),
        AppAction::GoToTab(n) => AppStep::ActivateTab((n as usize).saturating_sub(1)),
        AppAction::Save => AppStep::Save,
        AppAction::GotoLine => AppStep::OpenPrompt { kind: PromptKind::GotoLine, replace: false },
        AppAction::SearchOpen => AppStep::OpenPrompt { kind: PromptKind::Search, replace: false },
        AppAction::ReplaceOpen => AppStep::OpenPrompt { kind: PromptKind::Search, replace: true },
        AppAction::SearchNext => if searched {
            AppStep::Jump(Direction::Forward)
        } else {
            AppStep::NothingToSearch
        },
        AppAction::SearchPrevious => if searched {
            AppStep::Jump(Direction::Backward)
        } else {
            AppStep::NothingToSearch
        },
        AppAction::Other => AppStep::NotMine,
    }
}

/// The prompt an [`AppStep::OpenPrompt`] opens.
pub fn open_prompt(kind: PromptKind, replace: bool) -> (p: Prompt)
    ensures
        p@ == (PromptView { kind, input: Seq::empty(), pending_needle: None, replace_flow: replace }),
{
    let mut p = Prompt::new(kind);
    if replace {
        p.become_replace_after_needle();
    }
    p
}

/// What a search step says with nothing searched yet.
pub fn nothing_to_search() -> (m: &'static str)
    ensures
        m@ == "Nothing to search for yet"@,
{
    "Nothing to search for yet"
}

/// The status after a save: a save that fails silently is how work gets
/// lost, so the failure is said, with its reason.
pub open spec fn spec_saved(result: Result<(), Seq<char>>) -> Seq<char> {
    match result {
        Ok(()) => "Saved."@,
        Err(e) => "Save failed: "@ + e,
    }
}

/// The status after a save.
pub fn saved(result: Result<(), String>) -> (m: String)
    ensures
        m@ == spec_saved(match result {
            Ok(()) => Ok(()),
            Err(e) => Err(e@),
        }),
{
    match result {
        Ok(()) => "Saved.".to_owned(),
        Err(e) => {
            let mut m = "Save failed: ".to_owned();
            m.append(e.as_str());
            m
        },
    }
}

/// The left half of the status bar: the open prompt's question and answer so
/// far, which outranks any message; else the message; else the hint.
pub open spec fn spec_status_left(prompt: Option<PromptView>, status: Option<Seq<char>>) -> Seq<char> {
    match prompt {
        Some(p) => label_of(p.kind) + seq![' '] + p.input,
        None => match status {
            Some(s) => s,
            None => HINT@,
        },
    }
}

/// The left half of the status bar.
pub fn status_left(prompt: Option<&Prompt>, status: Option<&str>) -> (s: String)
    ensures
        s@ == spec_status_left(
            match prompt {
                Some(p) => Some(p@),
                None => None,
            },
            match status {
                Some(t) => Some(t@),
                None => None,
            },
        ),
{
    match prompt {
        Some(p) => {
            let mut s = p.label().to_owned();
            s.push(' ');
            s.append(p.input());
            s
        },
        None => match status {
            Some(t) => t.to_owned(),
            None => HINT.to_owned(),
        },
    }
}

/// Texts joined with [`SEGMENT_GAP`] between each pair.
pub open spec fn gap_joined(texts: Seq<Seq<char>>) -> Seq<char>
    decreases texts.len(),
{
    if texts.len() == 0 {
        Seq::empty()
    } else if texts.len() == 1 {
        texts[0]
    } else {
        gap_joined(texts.drop_last()) + SEGMENT_GAP@ + texts.last()
    }
}

/// The texts of some segments.
pub open spec fn segment_texts(segments: Seq<Segment>) -> Seq<Seq<char>> {
    segments.map_values(|s: Segment| s.text@)
}

/// The right half of the status bar: the segments' texts, spaced apart.
pub fn status_right(segments: &Vec<Segment>) -> (s: String)
    ensures
        s@ == gap_joined(segment_texts(segments@)),
{
    let ghost texts = segment_texts(segments@);
    let mut s = String::new();
    let mut i: usize = 0;
    while i < segments.len()
        invariant
            i <= segments@.len(),
            texts == segment_texts(segments@),
            s@ == gap_joined(texts.take(i as int)),
        decreases segments@.len() - i,
    {
        proof {
            assert(texts.take(i as int + 1).drop_last() =~= texts.take(i as int));
        }
        if i > 0 {
            s.append(SEGMENT_GAP);
        }
        s.append(segments[i].text.as_str());
        proof {
            if i == 0 {
                assert(texts.take(1)[0] == texts[0]);
            }
            assert(s@ =~= gap_joined(texts.take(i as int + 1)));
        }
        i = i + 1;
    }
    assert(texts.take(segments@.len() as int) =~= texts);
    s
}

/// `char::is_control`: the Unicode `Cc` category, the C0 and C1 controls
/// and DEL.
pub open spec fn control(c: char) -> bool {
    let n = c as u32;
    n <= 0x1F || 0x7F <= n <= 0x9F
}

/// `char::is_control`: whether `c` is in the `Cc` category.
fn is_control(c: char) -> (b: bool)
    ensures
        b == control(c),
{
    let n = c as u32;
    n <= 0x1F || (0x7F <= n && n <= 0x9F)
}

/// The text without its control characters.
pub open spec fn printable(text: Seq<char>) -> Seq<char>
    decreases text.len(),
{
    if text.len() == 0 {
        text
    } else if control(text.last()) {
        printable(text.drop_last())
    } else {
        printable(text.drop_last()).push(text.last())
    }
}

/// A paste into an open prompt is a search term, not an edit: its text goes
/// into the input, without the control characters a prompt cannot show.
pub fn paste_into_prompt(prompt: &mut Prompt, text: &str)
    ensures
        final(prompt)@ == (PromptView { input: old(prompt)@.input + printable(text@), ..old(prompt)@ }),
{
    let n = text.unicode_len();
    let mut i: usize = 0;
    let ghost start = prompt@;
    while i < n
        invariant
            i <= n,
            n == text@.len(),
            prompt@ == (PromptView { input: start.input + printable(text@.take(i as int)), ..start }),
        decreases n - i,
    {
        let c = text.get_char(i);
        proof {
            assert(text@.take(i as int + 1).drop_last() =~= text@.take(i as int));
            assert(text@.take(i as int + 1).last() == c);
        }
        if !is_control(c) {
            prompt.insert_char(c);
            assert(start.input + printable(text@.take(i as int)).push(c) =~= start.input + printable(
                text@.take(i as int + 1),
            ));
        }
        i = i + 1;
    }
    assert(text@.take(n as int) =~= text@);
}

/// What a change on disk does to the buffer on screen.
#[derive(Debug)]
pub enum DiskChange {
    /// Not the file on screen, or our own save: nothing to do.
    Ignore,
    /// The file is gone: the buffer stands, and the status says so.
    Deleted(String),
    /// The file changed under unsaved work: the work is kept and the status
    /// says so. A dirty buffer is never silently reloaded.
    Kept(String),
    /// Reload it, and parse it again from scratch.
    Reload,
}

/// What a change on disk does, from the facts about the buffer on screen.
pub open spec fn spec_disk_change(on_screen: bool, exists: bool, matches_disk: bool, dirty: bool, name: Seq<char>) -> Option<Seq<char>> {
    if !on_screen {
        None
    } else if !exists {
        Some(name + " was deleted on disk. Ctrl+S writes it back."@)
    } else if matches_disk {
        None
    } else if dirty {
        Some(name + " changed on disk. Your unsaved changes are kept; Ctrl+S overwrites it."@)
    } else {
        None
    }
}

/// A change on disk never costs unsaved work: only the file on screen is
/// concerned; a file that is gone is kept, with a message naming it and the
/// way to write it back; a file that changed under unsaved edits keeps the
/// edits, with a message naming it; and a file that matches what is on disk
/// needs nothing said.
pub proof fn law_a_change_on_disk(on_screen: bool, exists: bool, matches_disk: bool, dirty: bool, name: Seq<char>)
    ensures
        !on_screen ==> spec_disk_change(on_screen, exists, matches_disk, dirty, name) is None,
        on_screen && !exists ==> spec_disk_change(on_screen, exists, matches_disk, dirty, name) == Some(
            name + " was deleted on disk. Ctrl+S writes it back."@,
        ),
        on_screen && exists && matches_disk ==> spec_disk_change(on_screen, exists, matches_disk, dirty, name)
            is None,
        on_screen && exists && !matches_disk && dirty ==> spec_disk_change(
            on_screen,
            exists,
            matches_disk,
            dirty,
            name,
        ) == Some(name + " changed on disk. Your unsaved changes are kept; Ctrl+S overwrites it."@),
        on_screen && exists && !matches_disk && !dirty ==> spec_disk_change(
            on_screen,
            exists,
            matches_disk,
            dirty,
            name,
        ) is None,
{
}

/// What a change on disk does to the buffer on screen.
pub fn disk_change(on_screen: bool, exists: bool, matches_disk: bool, dirty: bool, name: &str) -> (c: DiskChange)
    ensures
        !on_screen || (exists && matches_disk) ==> c is Ignore,
        on_screen && !exists ==> (c matches DiskChange::Deleted(m) && Some(m@) == spec_disk_change(on_screen, exists, matches_disk, dirty, name@)),
        on_screen && exists && !matches_disk && dirty ==> (c matches DiskChange::Kept(m) && Some(m@) == spec_disk_change(on_screen, exists, matches_disk, dirty, name@)),
        on_screen && exists && !matches_disk && !dirty ==> c is Reload,
{
    if !on_screen {
        return DiskChange::Ignore;
    }
    if !exists {
        let mut m = name.to_owned();
        m.append(" was deleted on disk. Ctrl+S writes it back.");
        return DiskChange::Deleted(m);
    }
    if matches_disk {
        return DiskChange::Ignore;
    }
    if dirty {
        let mut m = name.to_owned();
        m.append(" changed on disk. Your unsaved changes are kept; Ctrl+S overwrites it.");
        return DiskChange::Kept(m);
    }
    DiskChange::Reload
}

/// Whether published diagnostics describe a version older than the one the
/// server was last sent: showing those would replace what is on screen with
/// something older.
pub fn is_stale(sent: Option<i32>, described: Option<i32>) -> (b: bool)
    ensures
        b == (match (sent, described) {
            (Some(s), Some(d)) => d < s,
            _ => false,
        }),
{
    match (sent, described) {
        (Some(s), Some(d)) => d < s,
        _ => false,
    }
}

/// Whether opening a file replaces the only tab rather than joining it: an
/// untouched, untitled buffer, the one the editor starts on, is never worth
/// keeping beside it.
pub fn replaces_scratch(tab_count: usize, has_path: bool, dirty: bool) -> (b: bool)
    ensures
        b == (tab_count == 1 && !has_path && !dirty),
{
    tab_count == 1 && !has_path && !dirty
}

/// The columns the right half takes: every segment's text and a gap
/// between each pair.
pub open spec fn right_width(texts: Seq<Seq<char>>) -> nat
    decreases texts.len(),
{
    if texts.len() == 0 {
        0
    } else if texts.len() == 1 {
        texts[0].len()
    } else {
        right_width(texts.drop_last()) + 2 + texts.last().len()
    }
}

/// One of the theme's status-bar colours, by the part it plays.
#[derive(Debug, Clone, Copy, PartialEq, Eq, Structural)]
pub enum BarColour {
    /// `status_bar_bg`: what the whole row is painted on.
    Background,
    /// `status_bar_fg`: the left half, the gaps, and `Normal` segments.
    Foreground,
    /// `status_bar_inactive_fg`: `Quiet` segments.
    InactiveForeground,
    /// `status_bar_accent`: `Accent` segments.
    Accent,
}

/// The colour a segment of each emphasis is written in.
pub open spec fn ink_of(emphasis: Emphasis) -> BarColour {
    match emphasis {
        Emphasis::Normal => BarColour::Foreground,
        Emphasis::Quiet => BarColour::InactiveForeground,
        Emphasis::Accent => BarColour::Accent,
    }
}

/// The colour a segment of this emphasis is written in.
pub fn ink(emphasis: Emphasis) -> (c: BarColour)
    ensures
        c == ink_of(emphasis),
{
    match emphasis {
        Emphasis::Normal => BarColour::Foreground,
        Emphasis::Quiet => BarColour::InactiveForeground,
        Emphasis::Accent => BarColour::Accent,
    }
}

/// One status bar row: the left half cut to fit, the blank columns between
/// it and the right half, and the colour the row is painted on.
#[derive(Debug)]
pub struct StatusLine {
    pub left: String,
    pub gap: usize,
    pub fill: BarColour,
}

/// The status bar's row in `width` columns. The right half is the fixed
/// cost; the left is cut to what is left over, two columns short, so a long
/// message never pushes the position off screen.
pub open spec fn spec_status_line(left: Seq<char>, texts: Seq<Seq<char>>, width: nat) -> (Seq<char>, nat) {
    let rw = right_width(texts);
    let room: nat = if rw + 2 <= width {
        (width - rw - 2) as nat
    } else {
        0
    };
    let kept = if left.len() <= room {
        left
    } else {
        left.take(room as int)
    };
    (kept, if kept.len() + rw <= width {
        (width - kept.len() - rw) as nat
    } else {
        0
    })
}

/// Lay out the status bar's row.
pub fn status_line(left: &str, segments: &Vec<Segment>, width: u16) -> (line: StatusLine)
    requires
        right_width(segment_texts(segments@)) + 2 <= usize::MAX,
    ensures
        (line.left@, line.gap as nat) == spec_status_line(left@, segment_texts(segments@), width as nat),
        line.fill == BarColour::Background,
        right_width(segment_texts(segments@)) + 2 <= width ==> line.left@.len() + line.gap
            + right_width(segment_texts(segments@)) == width,
{
    let ghost texts = segment_texts(segments@);
    let mut rw: usize = 0;
    let mut i: usize = 0;
    while i < segments.len()
        invariant
            i <= segments@.len(),
            texts == segment_texts(segments@),
            right_width(texts) + 2 <= usize::MAX,
            rw == right_width(texts.take(i as int)),
            right_width(texts.take(i as int)) <= right_width(texts),
        decreases segments@.len() - i,
    {
        proof {
            assert(texts.take(i as int + 1).drop_last() =~= texts.take(i as int));
            assert(texts.take(i as int + 1).last() == segments@[i as int].text@);
            lemma_right_width_grows(texts, i as int + 1);
        }
        let n = segments[i].text.as_str().unicode_len();
        if i > 0 {
            rw = rw + 2 + n;
        } else {
            rw = n;
            assert(texts.take(1)[0] == texts[0]);
        }
        i = i + 1;
    }
    assert(texts.take(segments@.len() as int) =~= texts);
    let w = width as usize;
    let room: usize = if rw + 2 <= w {
        w - rw - 2
    } else {
        0
    };
    let chars = crate::text::chars_of(left);
    let keep = if chars.len() <= room {
        chars.len()
    } else {
        room
    };
    let kept = crate::text::string_of(&chars, 0, keep);
    proof {
        if chars@.len() <= room {
            assert(chars@.subrange(0, keep as int) =~= left@);
        } else {
            assert(chars@.subrange(0, keep as int) =~= left@.take(room as int));
        }
    }
    let gap: usize = if keep + rw <= w {
        w - keep - rw
    } else {
        0
    };
    StatusLine { left: kept, gap, fill: BarColour::Background }
}

proof fn lemma_right_width_grows(texts: Seq<Seq<char>>, n: int)
    requires
        0 <= n <= texts.len(),
    ensures
        right_width(texts.take(n)) <= right_width(texts),
    decreases texts.len() - n,
{
    if n < texts.len() {
        lemma_right_width_grows(texts, n + 1);
        assert(texts.take(n + 1).drop_last() =~= texts.take(n));
    } else {
        assert(texts.take(n) =~= texts);
    }
}

/// One cell of the status bar's row: what it shows and in which colours.
#[derive(Debug, Clone, Copy, PartialEq, Eq)]
pub struct BarCell {
    pub symbol: char,
    pub fg: BarColour,
    pub bg: BarColour,
}

/// Each character of `text` written in `fg`.
pub open spec fn painted(text: Seq<char>, fg: BarColour) -> Seq<(char, BarColour)> {
    Seq::new(text.len(), |i: int| (text[i], fg))
}

/// `n` blank columns.
pub open spec fn blanks(n: nat) -> Seq<char> {
    Seq::new(n, |i: int| ' ')
}

/// The right half as written: each segment in its own colour, and the gap
/// between each pair in the bar's foreground.
pub open spec fn right_cells(segments: Seq<Segment>) -> Seq<(char, BarColour)>
    decreases segments.len(),
{
    if segments.len() == 0 {
        Seq::empty()
    } else if segments.len() == 1 {
        painted(segments[0].text@, ink_of(segments[0].emphasis))
    } else {
        right_cells(segments.drop_last()) + painted("  "@, BarColour::Foreground) + painted(
            segments.last().text@,
            ink_of(segments.last().emphasis),
        )
    }
}

/// The row as drawn in `width` columns: the kept left half and the gap in the
/// bar's foreground, then the right half, cut at the frame's edge.
pub open spec fn spec_status_row(left: Seq<char>, segments: Seq<Segment>, width: nat) -> Seq<
    (char, BarColour),
> {
    let (kept, gap) = spec_status_line(left, segment_texts(segments), width);
    (painted(kept, BarColour::Foreground) + painted(blanks(gap), BarColour::Foreground)
        + right_cells(segments)).take(width as int)
}

/// The cells as symbol and foreground.
pub open spec fn cell_views(cells: Seq<BarCell>) -> Seq<(char, BarColour)> {
    cells.map_values(|c: BarCell| (c.symbol, c.fg))
}

proof fn lemma_right_cells_len(segments: Seq<Segment>)
    ensures
        right_cells(segments).len() == right_width(segment_texts(segments)),
    decreases segments.len(),
{
    if segments.len() == 1 {
        assert(segment_texts(segments)[0] == segments[0].text@);
    } else if segments.len() > 1 {
        lemma_right_cells_len(segments.drop_last());
        assert(segment_texts(segments.drop_last()) =~= segment_texts(segments).drop_last());
        assert(segment_texts(segments).last() == segments.last().text@);
        reveal_strlit("  ");
    }
}

/// `text` written in `fg` on the bar's background.
fn painted_cells(text: &str, fg: BarColour) -> (out: Vec<BarCell>)
    ensures
        cell_views(out@) == painted(text@, fg),
        out@.len() == text@.len(),
        forall|i: int| 0 <= i < out@.len() ==> (#[trigger] out@[i]).bg == BarColour::Background,
{
    let n = text.unicode_len();
    let mut out: Vec<BarCell> = Vec::new();
    let mut j: usize = 0;
    while j < n
        invariant
            j <= n,
            n == text@.len(),
            out@.len() == j,
            cell_views(out@) == painted(text@, fg).take(j as int),
            forall|i: int| 0 <= i < out@.len() ==> (#[trigger] out@[i]).bg == BarColour::Background,
        decreases n - j,
    {
        let cell = BarCell { symbol: text.get_char(j), fg, bg: BarColour::Background };
        out.push(cell);
        proof {
            assert(cell_views(out@) =~= painted(text@, fg).take(j as int + 1));
        }
        j = j + 1;
    }
    assert(painted(text@, fg).take(j as int) =~= painted(text@, fg));
    out
}

/// `cells` with `text` written after them in `fg`, on the bar's background.
fn push_painted(cells: &mut Vec<BarCell>, text: &str, fg: BarColour)
    ensures
        cell_views(final(cells)@) == cell_views(old(cells)@) + painted(text@, fg),
        final(cells)@.len() == old(cells)@.len() + text@.len(),
        forall|i: int|
            0 <= i < final(cells)@.len() ==> (#[trigger] final(cells)@[i]).bg == (if i < old(
                cells,
            )@.len() {
                old(cells)@[i].bg
            } else {
                BarColour::Background
            }),
{
    let mut part = painted_cells(text, fg);
    let ghost p = part@;
    cells.append(&mut part);
    assert(cell_views(cells@) =~= cell_views(old(cells)@) + cell_views(p));
}

/// The status bar's row, cell by cell, in `width` columns: every cell on the
/// bar's background, the left half and the gaps in its foreground, and each
/// segment in the colour of its emphasis.
pub fn status_row(left: &str, segments: &Vec<Segment>, width: u16) -> (cells: Vec<BarCell>)
    requires
        right_width(segment_texts(segments@)) + 2 <= usize::MAX,
        left@.len() + right_width(segment_texts(segments@)) + 2 <= usize::MAX,
    ensures
        cells@.len() == width,
        cell_views(cells@) == spec_status_row(left@, segments@, width as nat),
        forall|i: int| 0 <= i < cells@.len() ==> (#[trigger] cells@[i]).bg == BarColour::Background,
{
    let line = status_line(left, segments, width);
    let ghost texts = segment_texts(segments@);
    let ghost (kept, gap) = spec_status_line(left@, texts, width as nat);
    proof {
        lemma_right_cells_len(segments@);
    }
    let mut cells: Vec<BarCell> = Vec::new();
    assert(cell_views(cells@) =~= Seq::<(char, BarColour)>::empty());
    push_painted(&mut cells, line.left.as_str(), BarColour::Foreground);
    let mut g: usize = 0;
    let ghost after_left = cell_views(cells@);
    while g < line.gap
        invariant
            g <= line.gap,
            line.gap as nat == gap,
            line.left@ == kept,
            kept.len() <= left@.len(),
            left@.len() + right_width(texts) + 2 <= usize::MAX,
            gap <= width,
            after_left == painted(kept, BarColour::Foreground),
            cells@.len() == kept.len() + g,
            cell_views(cells@) == after_left + painted(blanks(gap), BarColour::Foreground).take(
                g as int,
            ),
            forall|i: int| 0 <= i < cells@.len() ==> (#[trigger] cells@[i]).bg == BarColour::Background,
        decreases line.gap - g,
    {
        let ghost before = cells@;
        let c = BarCell { symbol: ' ', fg: BarColour::Foreground, bg: BarColour::Background };
        cells.push(c);
        proof {
            assert(cells@ == before.push(c));
            assert forall|k: int| 0 <= k < cells@.len() implies (#[trigger] cells@[k]).bg
                == BarColour::Background by {
                if k < before.len() {
                    assert(cells@[k] == before[k]);
                }
            }
            assert(cell_views(cells@) =~= cell_views(before).push((' ', BarColour::Foreground)));
            assert(painted(blanks(gap), BarColour::Foreground).take(g as int + 1) =~= painted(
                blanks(gap),
                BarColour::Foreground,
            ).take(g as int).push((' ', BarColour::Foreground)));
        }
        g = g + 1;
    }
    assert(painted(blanks(gap), BarColour::Foreground).take(g as int) =~= painted(
        blanks(gap),
        BarColour::Foreground,
    ));
    let ghost head = cell_views(cells@);
    assert(head.len() + right_width(texts) <= usize::MAX);
    assert(head.len() + right_width(texts) >= width);
    let mut i: usize = 0;
    while i < segments.len()
        invariant
            i <= segments@.len(),
            texts == segment_texts(segments@),
            head == painted(kept, BarColour::Foreground) + painted(blanks(gap), BarColour::Foreground),
            head.len() == kept.len() + gap,
            head.len() + right_width(texts) <= usize::MAX,
            head.len() + right_width(texts) >= width,
            kept.len() <= left@.len(),
            gap <= width,
            left@.len() + right_width(texts) + 2 <= usize::MAX,
            cell_views(cells@) == head + right_cells(segments@.take(i as int)),
            cells@.len() == head.len() + right_width(texts.take(i as int)),
            right_width(texts.take(i as int)) <= right_width(texts),
            forall|k: int| 0 <= k < cells@.len() ==> (#[trigger] cells@[k]).bg == BarColour::Background,
        decreases segments@.len() - i,
    {
        proof {
            let t = segments@.take(i as int + 1);
            assert(t.drop_last() =~= segments@.take(i as int));
            assert(texts.take(i as int + 1).drop_last() =~= texts.take(i as int));
            assert(segment_texts(t) =~= texts.take(i as int + 1));
            lemma_right_width_grows(texts, i as int + 1);
            lemma_right_cells_len(segments@.take(i as int));
            assert(segment_texts(segments@.take(i as int)) =~= texts.take(i as int));
        }
        proof {
            reveal_strlit("  ");
            if i > 0 {
                assert(right_width(texts.take(i as int + 1)) == right_width(texts.take(i as int))
                    + 2 + segments@[i as int].text@.len());
            } else {
                assert(texts.take(1)[0] == segments@[0].text@);
            }
        }
        if i > 0 {
            push_painted(&mut cells, "  ", BarColour::Foreground);
        }
        let fg = ink(segments[i].emphasis);
        push_painted(&mut cells, segments[i].text.as_str(), fg);
        proof {
            let t = segments@.take(i as int + 1);
            assert(t.last() == segments@[i as int]);
            if i == 0 {
                assert(right_cells(segments@.take(0)) =~= Seq::<(char, BarColour)>::empty());
                assert(t.len() == 1);
                assert(t[0] == segments@[0]);
                assert(cell_views(cells@) =~= head + right_cells(t));
            } else {
                assert(cell_views(cells@) =~= head + right_cells(t));
            }
        }
        i = i + 1;
    }
    proof {
        assert(segments@.take(segments@.len() as int) =~= segments@);
        assert(texts.take(segments@.len() as int) =~= texts);
    }
    let ghost full = cells@;
    cells.truncate(width as usize);
    assert(cell_views(cells@) =~= cell_views(full).take(width as int));
    cells
}

/// When the right half fits with two columns to spare, the row is exactly
/// `width` cells: the left text in the bar's foreground, cut to what is left
/// over two columns short and never more than it was, then blanks, then the
/// right half, ending at the frame's edge.
pub proof fn law_the_status_row_ends_with_the_right_half(left: Seq<char>, segments: Seq<Segment>, width: nat)
    requires
        right_width(segment_texts(segments)) + 2 <= width,
    ensures
        ({
            let rw = right_width(segment_texts(segments));
            let (kept, gap) = spec_status_line(left, segment_texts(segments), width);
            let row = spec_status_row(left, segments, width);
            &&& kept == left.take(if left.len() <= width - rw - 2 { left.len() as int } else { width - rw - 2 })
            &&& kept.len() + gap + rw == width
            &&& row.len() == width
            &&& forall|i: int| 0 <= i < kept.len() ==> #[trigger] row[i] == (left[i], BarColour::Foreground)
            &&& forall|i: int| kept.len() <= i < kept.len() + gap ==> #[trigger] row[i] == (' ', BarColour::Foreground)
            &&& row.subrange(width - rw, width as int) == right_cells(segments)
        }),
{
    let texts = segment_texts(segments);
    let rw = right_width(texts);
    lemma_right_cells_len(segments);
    let (kept, gap) = spec_status_line(left, texts, width);
    let whole = painted(kept, BarColour::Foreground) + painted(blanks(gap), BarColour::Foreground)
        + right_cells(segments);
    assert(whole.len() == width);
    assert(whole.take(width as int) =~= whole);
    assert(whole.subrange(width - rw, width as int) =~= right_cells(segments));
    if left.len() <= width - rw - 2 {
        assert(kept =~= left.take(left.len() as int));
    }
}

/// Segments are written in the colour of their emphasis: `Normal` in the
/// bar's foreground, `Quiet` in its inactive foreground, `Accent` in its
/// accent; and no segment is written in the background colour.
pub proof fn law_emphasis_colours(e: Emphasis)
    ensures
        ink_of(Emphasis::Normal) == BarColour::Foreground,
        ink_of(Emphasis::Quiet) == BarColour::InactiveForeground,
        ink_of(Emphasis::Accent) == BarColour::Accent,
        ink_of(e) != BarColour::Background,
{
}

} // verus!
