//! The multi-line raw-mode line editor and the single-field
//! autocomplete-as-you-type input, as pure state machines.
//!
//! The editor holds committed lines plus one in-progress current line.
//! Terminal key reading and echoing live outside the library; they hand the
//! editor one event per key (or one paste block) and render its state.

use vstd::prelude::*;

use crate::text::{
    chars_of, is_prefix_of, join_with, lines_of, lines_strings, string_from_chars, trim_chars,
    trim_of, views_of,
};

verus! {

/// One input event of the multi-line editor.
pub enum EditorEvent {
    /// A printable character was typed.
    Type(char),
    /// The dedicated "insert line break" key (distinct from plain Enter).
    LineBreak,
    /// Plain Enter: commit the current line and finish.
    Submit,
    /// Backspace.
    Backspace,
    /// Escape: cancel the session.
    Cancel,
    /// A bracketed-paste block, possibly spanning several lines.
    Paste(String),
}

/// The editor state as the specification sees it: committed lines and the
/// current line, or a finished session.
pub enum EditorModel {
    Editing(Seq<Seq<char>>, Seq<char>),
    Submitted(Seq<char>),
    Cancelled,
}

/// What one event does to the editor state.
pub open spec fn editor_step(lines: Seq<Seq<char>>, cur: Seq<char>, ev: EditorEvent) -> EditorModel {
    match ev {
        EditorEvent::Type(c) => EditorModel::Editing(lines, cur.push(c)),
        EditorEvent::LineBreak => EditorModel::Editing(lines.push(cur), Seq::empty()),
        EditorEvent::Submit => EditorModel::Submitted(join_with(lines.push(cur), '\n')),
        EditorEvent::Backspace => if cur.len() > 0 {
            EditorModel::Editing(lines, cur.take(cur.len() - 1))
        } else if lines.len() > 0 {
            EditorModel::Editing(lines.take(lines.len() - 1), lines.last())
        } else {
            EditorModel::Editing(lines, cur)
        },
        EditorEvent::Cancel => EditorModel::Cancelled,
        EditorEvent::Paste(s) => {
            let p = lines_of(s@);
            if p.len() == 0 {
                EditorModel::Editing(lines, cur)
            } else {
                EditorModel::Editing(lines + p.take(p.len() - 1), cur + p.last())
            }
        },
    }
}

/// The editor state after a whole sequence of events, or the session's
/// outcome if one of them finished it.
pub open spec fn editor_run(lines: Seq<Seq<char>>, cur: Seq<char>, evs: Seq<EditorEvent>) -> EditorModel
    decreases evs.len(),
{
    if evs.len() == 0 {
        EditorModel::Editing(lines, cur)
    } else {
        match editor_step(lines, cur, evs[0]) {
            EditorModel::Editing(l, c) => editor_run(l, c, evs.skip(1)),
            m => m,
        }
    }
}

/// Whether no committed line contains the line separator.
pub open spec fn lines_clean(lines: Seq<Seq<char>>) -> bool {
    forall|k: int| 0 <= k < lines.len() ==> !(#[trigger] lines[k]).contains('\n')
}

/// Whether an event can put a line separator into the buffer by itself: only
/// typing a literal newline could, and raw-mode key input never delivers one
/// (line breaks arrive as the dedicated key, newlines inside pastes arrive as
/// paste events).
pub open spec fn event_types_no_newline(ev: EditorEvent) -> bool {
    match ev {
        EditorEvent::Type(c) => c != '\n',
        _ => true,
    }
}

/// The buffer invariant of the editor: committed lines never contain the
/// line separator, and neither does the current line. Every event that does
/// not type a literal newline keeps the invariant — pasted blocks are split
/// at their line boundaries, so their newlines never reach a committed line.
pub proof fn lemma_editor_step_keeps_lines_clean(
    lines: Seq<Seq<char>>,
    cur: Seq<char>,
    ev: EditorEvent,
)
    requires
        lines_clean(lines),
        !cur.contains('\n'),
        event_types_no_newline(ev),
    ensures
        editor_step(lines, cur, ev) matches EditorModel::Editing(l, c) ==> lines_clean(l) && !c.contains('\n'),
{
    match ev {
        EditorEvent::Type(ch) => {
            if cur.push(ch).contains('\n') {
                let t = choose|t: int|
                    0 <= t < cur.push(ch).len() && #[trigger] cur.push(ch)[t] == '\n';
                assert(t < cur.len() ==> cur[t] == '\n');
            }
            assert(lines_clean(lines));
        },
        EditorEvent::LineBreak => {
            assert forall|k: int|
                0 <= k < lines.push(cur).len() implies !(#[trigger] lines.push(cur)[k]).contains(
                '\n',
            ) by {
                if k < lines.len() {
                    assert(lines.push(cur)[k] == lines[k]);
                } else {
                    assert(lines.push(cur)[k] == cur);
                }
            }
        },
        EditorEvent::Backspace => {
            if cur.len() > 0 {
                if cur.take(cur.len() - 1).contains('\n') {
                    let t = choose|t: int|
                        0 <= t < cur.len() - 1 && #[trigger] cur.take(cur.len() - 1)[t] == '\n';
                    assert(cur[t] == '\n');
                }
            } else if lines.len() > 0 {
                assert forall|k: int|
                    0 <= k < lines.take(lines.len() - 1).len() implies !(#[trigger] lines.take(
                    lines.len() - 1,
                )[k]).contains('\n') by {
                    assert(lines.take(lines.len() - 1)[k] == lines[k]);
                }
                assert(!lines[lines.len() - 1].contains('\n'));
            }
        },
        EditorEvent::Submit => {},
        EditorEvent::Cancel => {},
        EditorEvent::Paste(s) => {
            crate::text::lemma_lines_newline_free(s@);
            let p = lines_of(s@);
            if p.len() > 0 {
                assert forall|k: int|
                    0 <= k < (lines + p.take(p.len() - 1)).len() implies !(#[trigger] (lines
                    + p.take(p.len() - 1))[k]).contains('\n') by {
                    if k < lines.len() {
                        assert((lines + p.take(p.len() - 1))[k] == lines[k]);
                    } else {
                        assert((lines + p.take(p.len() - 1))[k] == p[k - lines.len()]);
                    }
                }
                if (cur + p.last()).contains('\n') {
                    let t = choose|t: int|
                        0 <= t < (cur + p.last()).len() && #[trigger] (cur + p.last())[t] == '\n';
                    if t < cur.len() {
                        assert(cur[t] == '\n');
                    } else {
                        assert(p.last()[t - cur.len()] == '\n');
                        assert(p[p.len() - 1].contains('\n'));
                    }
                }
            }
        },
    }
}

/// The editor's buffer: the committed lines and the current line being typed.
/// Committed lines never contain a line break; the current line is the tail
/// being edited.
pub struct InputBuffer {
    pub lines: Vec<String>,
    pub current: Vec<char>,
}

/// What `InputBuffer::apply` reports after one event.
pub enum EditorStep {
    /// The session continues with the updated buffer.
    Editing,
    /// Plain Enter ended the session: all committed lines joined with `\n`.
    Submitted(String),
    /// Escape ended the session.
    Cancelled,
}

impl InputBuffer {
    /// A fresh editor: no committed lines, empty current line.
    pub fn new() -> (r: InputBuffer)
        ensures
            r.lines@.len() == 0,
            r.current@.len() == 0,
    {
        InputBuffer { lines: Vec::new(), current: Vec::new() }
    }

    /// Append one typed character to the current line.
    pub fn type_char(&mut self, c: char)
        ensures
            final(self).lines@ == old(self).lines@,
            final(self).current@ == old(self).current@.push(c),
    {
        self.current.push(c);
    }

    /// Commit the current line and start a new empty one.
    pub fn line_break(&mut self)
        ensures
            views_of(final(self).lines@) == views_of(old(self).lines@).push(old(self).current@),
            final(self).current@.len() == 0,
    {
        let committed = string_from_chars(&self.current);
        self.lines.push(committed);
        self.current = Vec::new();
        proof {
            assert(views_of(self.lines@) =~~= views_of(old(self).lines@).push(
                old(self).current@,
            ));
        }
    }

    /// Remove the last character of the current line; on an empty current
    /// line, pop the last committed line back into the current line (the only
    /// way to edit a previously committed line). With nothing left, no
    /// change.
    pub fn backspace(&mut self)
        ensures
            old(self).current@.len() > 0 ==> final(self).lines@ == old(self).lines@
                && final(self).current@ == old(self).current@.take(old(self).current@.len() - 1),
            old(self).current@.len() == 0 && old(self).lines@.len() > 0 ==> views_of(
                final(self).lines@,
            ) == views_of(old(self).lines@).take(old(self).lines@.len() - 1)
                && final(self).current@ == views_of(old(self).lines@).last(),
            old(self).current@.len() == 0 && old(self).lines@.len() == 0 ==> final(self).lines@
                == old(self).lines@ && final(self).current@ == old(self).current@,
    {
        if self.current.len() > 0 {
            let _c = self.current.pop();
        } else if self.lines.len() > 0 {
            let last = self.lines.pop();
            match last {
                Some(s) => {
                    self.current = chars_of(s.as_str());
                },
                None => {},
            }
            proof {
                assert(views_of(self.lines@) =~~= views_of(old(self).lines@).take(
                    old(self).lines@.len() - 1,
                ));
            }
        }
    }

    /// Take in a pasted block: every pasted line but the last becomes a new
    /// committed line as it stands, and the last pasted line joins the
    /// current line in place, after any already-typed prefix.
    pub fn paste(&mut self, text: &str)
        ensures
            ({
                let p = lines_of(text@);
                if p.len() == 0 {
                    views_of(final(self).lines@) == views_of(old(self).lines@)
                        && final(self).current@ == old(self).current@
                } else {
                    views_of(final(self).lines@) == views_of(old(self).lines@) + p.take(
                        p.len() - 1,
                    ) && final(self).current@ == old(self).current@ + p.last()
                }
            }),
    {
        let cs = chars_of(text);
        let parts = lines_strings(&cs);
        let n: usize = parts.len();
        if n == 0 {
            proof {
                assert(views_of(self.lines@) =~~= views_of(old(self).lines@));
            }
            return ;
        }
        let mut k: usize = 0;
        proof {
            assert(views_of(self.lines@) =~~= views_of(old(self).lines@) + views_of(parts@).take(
                0,
            ));
        }
        while k < n - 1
            invariant
                0 <= k <= n - 1,
                n == parts@.len(),
                views_of(parts@) == lines_of(cs@),
                cs@ == text@,
                views_of(self.lines@) == views_of(old(self).lines@) + views_of(parts@).take(
                    k as int,
                ),
                self.current@ == old(self).current@,
            decreases n - k,
        {
            let ghost prev = self.lines@;
            let line = parts[k].clone();
            proof {
                crate::text::lemma_views_push(prev, line);
            }
            self.lines.push(line);
            k = k + 1;
            proof {
                assert(views_of(self.lines@) =~~= views_of(old(self).lines@) + views_of(
                    parts@,
                ).take(k as int));
            }
        }
        let last_chars = chars_of(parts[n - 1].as_str());
        let m: usize = last_chars.len();
        let mut j: usize = 0;
        while j < m
            invariant
                0 <= j <= m,
                m == last_chars@.len(),
                self.current@ == old(self).current@ + last_chars@.take(j as int),
                views_of(self.lines@) == views_of(old(self).lines@) + views_of(parts@).take(
                    n - 1,
                ),
                n - 1 < parts@.len(),
                views_of(parts@) == lines_of(text@),
            decreases m - j,
        {
            self.current.push(last_chars[j]);
            j = j + 1;
            proof {
                assert(self.current@ =~= old(self).current@ + last_chars@.take(j as int));
            }
        }
        proof {
            assert(last_chars@.take(m as int) =~= views_of(parts@).last());
            assert(views_of(parts@).take(n - 1) =~~= lines_of(text@).take(
                lines_of(text@).len() - 1,
            ));
        }
    }

    /// Finish the session: commit the current line and hand back all
    /// committed lines joined with a line separator.
    pub fn submit(&mut self) -> (r: String)
        ensures
            r@ == join_with(views_of(old(self).lines@).push(old(self).current@), '\n'),
    {
        let committed = string_from_chars(&self.current);
        self.lines.push(committed);
        self.current = Vec::new();
        proof {
            assert(views_of(self.lines@) =~~= views_of(old(self).lines@).push(
                old(self).current@,
            ));
        }
        join_strings_nl(&self.lines)
    }

    /// Apply one event; reports whether the session goes on, finished with a
    /// result, or was cancelled.
    pub fn apply(&mut self, ev: &EditorEvent) -> (r: EditorStep)
        ensures
            ({
                let m = editor_step(views_of(old(self).lines@), old(self).current@, *ev);
                match r {
                    EditorStep::Editing => m matches EditorModel::Editing(l, c) && views_of(
                        final(self).lines@,
                    ) == l && final(self).current@ == c,
                    EditorStep::Submitted(s) => m matches EditorModel::Submitted(t) && s@ == t,
                    EditorStep::Cancelled => m is Cancelled,
                }
            }),
    {
        match ev {
            EditorEvent::Type(c) => {
                self.type_char(*c);
                EditorStep::Editing
            },
            EditorEvent::LineBreak => {
                self.line_break();
                EditorStep::Editing
            },
            EditorEvent::Submit => {
                let joined = self.submit();
                EditorStep::Submitted(joined)
            },
            EditorEvent::Backspace => {
                self.backspace();
                EditorStep::Editing
            },
            EditorEvent::Cancel => EditorStep::Cancelled,
            EditorEvent::Paste(text) => {
                self.paste(text.as_str());
                EditorStep::Editing
            },
        }
    }
}

/// Helper: lines joined with `\n`.
fn join_strings_nl(parts: &Vec<String>) -> (r: String)
    ensures
        r@ == join_with(views_of(parts@), '\n'),
{
    crate::text::join_strings(parts, '\n')
}

/// The outcome of a whole editor session driven by a script of events.
pub enum MultilineResult {
    /// Plain Enter ended the session with this text.
    Submitted(String),
    /// Escape ended the session.
    Cancelled,
    /// The script ran out before the session ended.
    Pending,
}

/// Run the multi-line editor over a script of events, starting from an empty
/// buffer. This is the whole editor session apart from terminal echo: the
/// interactive loop feeds it exactly the events the user types.
pub fn prompt_multiline(events: &Vec<EditorEvent>) -> (r: MultilineResult)
    ensures
        ({
            let m = editor_run(Seq::empty(), Seq::empty(), events@);
            match r {
                MultilineResult::Submitted(s) => m matches EditorModel::Submitted(t) && s@ == t,
                MultilineResult::Cancelled => m is Cancelled,
                MultilineResult::Pending => m is Editing,
            }
        }),
{
    let mut buf = InputBuffer::new();
    let n: usize = events.len();
    let mut i: usize = 0;
    proof {
        assert(views_of(buf.lines@) =~~= Seq::<Seq<char>>::empty());
        assert(buf.current@ =~= Seq::<char>::empty());
        assert(events@.skip(0) =~= events@);
    }
    while i < n
        invariant
            i <= n,
            n == events@.len(),
            editor_run(Seq::empty(), Seq::empty(), events@) == editor_run(
                views_of(buf.lines@),
                buf.current@,
                events@.skip(i as int),
            ),
        decreases n - i,
    {
        proof {
            assert(events@.skip(i as int)[0] == events@[i as int]);
            assert(events@.skip(i as int).skip(1) =~= events@.skip(i as int + 1));
        }
        let step = buf.apply(&events[i]);
        match step {
            EditorStep::Editing => {},
            EditorStep::Submitted(s) => {
                return MultilineResult::Submitted(s);
            },
            EditorStep::Cancelled => {
                return MultilineResult::Cancelled;
            },
        }
        i = i + 1;
    }
    proof {
        assert(events@.skip(n as int) =~= Seq::<EditorEvent>::empty());
    }
    MultilineResult::Pending
}

/// The suffix completing `input` out of the first suggestion that starts
/// with `input` and differs from it; empty when `input` has fewer than two
/// characters or nothing matches.
pub open spec fn suggestion_of(input: Seq<char>, suggestions: Seq<Seq<char>>) -> Seq<char>
    decreases suggestions.len(),
{
    if input.len() < 2 || suggestions.len() == 0 {
        Seq::empty()
    } else if is_prefix_of(input, suggestions[0]) && suggestions[0] != input {
        suggestions[0].skip(input.len() as int)
    } else {
        suggestion_of(input, suggestions.skip(1))
    }
}

/// Find the autocomplete suggestion for the typed input: the completion out
/// of the first matching suggestion.
pub fn find_autocomplete_suggestion(input: &str, suggestions: &Vec<String>) -> (r: String)
    ensures
        r@ == suggestion_of(input@, views_of(suggestions@)),
{
    let ics = chars_of(input);
    if ics.len() < 2 {
        return crate::text::string_from_chars(&Vec::new());
    }
    let n: usize = suggestions.len();
    let mut k: usize = 0;
    proof {
        assert(views_of(suggestions@).skip(0) =~~= views_of(suggestions@));
    }
    while k < n
        invariant
            k <= n,
            n == suggestions@.len(),
            ics@ == input@,
            ics@.len() >= 2,
            suggestion_of(input@, views_of(suggestions@)) == suggestion_of(
                input@,
                views_of(suggestions@).skip(k as int),
            ),
        decreases n - k,
    {
        proof {
            assert(views_of(suggestions@).skip(k as int)[0] == suggestions@[k as int]@);
            assert(views_of(suggestions@).skip(k as int).skip(1) =~~= views_of(
                suggestions@,
            ).skip(k as int + 1));
        }
        let scs = chars_of(suggestions[k].as_str());
        let is_pref = crate::text::starts_with_chars(&scs, &ics);
        if is_pref && scs.len() > ics.len() {
            let mut tail: Vec<char> = Vec::new();
            let mut j: usize = ics.len();
            let m: usize = scs.len();
            while j < m
                invariant
                    ics@.len() <= j <= m,
                    m == scs@.len(),
                    tail@ == scs@.subrange(ics@.len() as int, j as int),
                decreases m - j,
            {
                tail.push(scs[j]);
                j = j + 1;
                proof {
                    assert(tail@ =~= scs@.subrange(ics@.len() as int, j as int));
                }
            }
            proof {
                assert(scs@ != ics@);
                assert(tail@ =~= scs@.skip(ics@.len() as int));
            }
            return crate::text::string_from_chars(&tail);
        }
        proof {
            if is_pref {
                assert(scs@.len() >= ics@.len());
                if scs@.len() == ics@.len() {
                    assert(scs@.take(ics@.len() as int) =~= scs@);
                }
            }
        }
        k = k + 1;
    }
    proof {
        assert(views_of(suggestions@).skip(n as int) =~~= Seq::<Seq<char>>::empty());
    }
    crate::text::string_from_chars(&Vec::new())
}

/// One input event of the autocomplete field.
pub enum AutocompleteEvent {
    /// A printable character was typed.
    Type(char),
    /// Tab: accept the shown suggestion.
    Tab,
    /// Backspace.
    Backspace,
    /// Enter: finish with the trimmed input.
    Submit,
    /// Escape: cancel.
    Cancel,
}

/// The autocomplete field as the specification sees it: the typed input and
/// the suggestion currently shown behind it, or a finished session.
pub enum AutoModel {
    Typing(Seq<char>, Seq<char>),
    Submitted(Seq<char>),
    Cancelled,
}

/// What one event does to the field. Typing and erasing recompute the shown
/// suggestion; Tab appends the shown suggestion and clears it, so a second
/// Tab in a row adds nothing until the next keystroke recomputes it.
pub open spec fn auto_step(
    input: Seq<char>,
    shown: Seq<char>,
    suggs: Seq<Seq<char>>,
    ev: AutocompleteEvent,
) -> AutoModel {
    match ev {
        AutocompleteEvent::Type(c) => AutoModel::Typing(
            input.push(c),
            suggestion_of(input.push(c), suggs),
        ),
        AutocompleteEvent::Tab => AutoModel::Typing(input + shown, Seq::empty()),
        AutocompleteEvent::Backspace => if input.len() > 0 {
            AutoModel::Typing(
                input.take(input.len() - 1),
                suggestion_of(input.take(input.len() - 1), suggs),
            )
        } else {
            AutoModel::Typing(input, shown)
        },
        AutocompleteEvent::Submit => AutoModel::Submitted(trim_of(input)),
        AutocompleteEvent::Cancel => AutoModel::Cancelled,
    }
}

/// The field after a whole script of events, or the session's outcome.
pub open spec fn auto_run(
    input: Seq<char>,
    shown: Seq<char>,
    suggs: Seq<Seq<char>>,
    evs: Seq<AutocompleteEvent>,
) -> AutoModel
    decreases evs.len(),
{
    if evs.len() == 0 {
        AutoModel::Typing(input, shown)
    } else {
        match auto_step(input, shown, suggs, evs[0]) {
            AutoModel::Typing(s, sh) => auto_run(s, sh, suggs, evs.skip(1)),
            m => m,
        }
    }
}

/// The outcome of an autocomplete session driven by a script of events.
pub enum AutocompleteResult {
    /// Enter ended the session with this trimmed text.
    Submitted(String),
    /// Escape ended the session.
    Cancelled,
    /// The script ran out before the session ended.
    Pending,
}

/// Run the single-field autocomplete input over a script of events, starting
/// from an empty field with no suggestion shown. Typing recomputes the
/// suggestion, Tab accepts the shown one (and shows none until the next
/// keystroke), Enter returns the trimmed input, Escape cancels.
pub fn prompt_input_with_autocomplete(events: &Vec<AutocompleteEvent>, suggestions: &Vec<String>) -> (r:
    AutocompleteResult)
    ensures
        ({
            let m = auto_run(Seq::empty(), Seq::empty(), views_of(suggestions@), events@);
            match r {
                AutocompleteResult::Submitted(s) => m matches AutoModel::Submitted(t) && s@ == t,
                AutocompleteResult::Cancelled => m is Cancelled,
                AutocompleteResult::Pending => m is Typing,
            }
        }),
{
    let mut input: Vec<char> = Vec::new();
    let mut shown: Vec<char> = Vec::new();
    let n: usize = events.len();
    let mut i: usize = 0;
    proof {
        assert(events@.skip(0) =~= events@);
        assert(shown@ =~= Seq::<char>::empty());
    }
    while i < n
        invariant
            i <= n,
            n == events@.len(),
            auto_run(Seq::empty(), Seq::empty(), views_of(suggestions@), events@) == auto_run(
                input@,
                shown@,
                views_of(suggestions@),
                events@.skip(i as int),
            ),
        decreases n - i,
    {
        proof {
            assert(events@.skip(i as int)[0] == events@[i as int]);
            assert(events@.skip(i as int).skip(1) =~= events@.skip(i as int + 1));
        }
        match &events[i] {
            AutocompleteEvent::Type(c) => {
                input.push(*c);
                let next = find_autocomplete_suggestion(
                    string_from_chars(&input).as_str(),
                    suggestions,
                );
                shown = chars_of(next.as_str());
            },
            AutocompleteEvent::Tab => {
                let m: usize = shown.len();
                let mut j: usize = 0;
                let ghost base = input@;
                let ghost tailv = shown@;
                while j < m
                    invariant
                        j <= m,
                        m == shown@.len(),
                        shown@ == tailv,
                        input@ == base + tailv.take(j as int),
                    decreases m - j,
                {
                    input.push(shown[j]);
                    j = j + 1;
                    proof {
                        assert(input@ =~= base + tailv.take(j as int));
                    }
                }
                proof {
                    assert(tailv.take(m as int) =~= tailv);
                }
                shown = Vec::new();
                proof {
                    assert(shown@ =~= Seq::<char>::empty());
                }
            },
            AutocompleteEvent::Backspace => {
                if input.len() > 0 {
                    let _c = input.pop();
                    let next = find_autocomplete_suggestion(
                        string_from_chars(&input).as_str(),
                        suggestions,
                    );
                    shown = chars_of(next.as_str());
                }
            },
            AutocompleteEvent::Submit => {
                let trimmed = trim_chars(&input);
                return AutocompleteResult::Submitted(string_from_chars(&trimmed));
            },
            AutocompleteEvent::Cancel => {
                return AutocompleteResult::Cancelled;
            },
        }
        i = i + 1;
    }
    proof {
        assert(events@.skip(n as int) =~= Seq::<AutocompleteEvent>::empty());
    }
    AutocompleteResult::Pending
}

} // verus!
