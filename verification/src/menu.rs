//! Built-in list selection: single-select, multi-select, and a variant with
//! one virtual "add new" row that switches into raw text capture.
//!
//! Navigation is a pure state machine over key events; rendering and key
//! reading live outside the library. The runner functions drive a whole
//! session from a script of keys, which is also exactly what the interactive
//! loop feeds in, one key at a time, through the step functions.

use vstd::prelude::*;

use crate::text::string_from_chars;

verus! {

/// One key event of the menu selector.
pub enum MenuKey {
    Up,
    Down,
    Enter,
    Backspace,
    /// Any typed character; `q` cancels list navigation.
    Char(char),
    Esc,
}

/// A printable ASCII character: what the custom-entry capture accepts.
pub open spec fn is_printable_ascii(c: char) -> bool {
    ' ' <= c && c <= '~'
}

// ------------------------------------------------------------------
// Single-select
// ------------------------------------------------------------------
/// The single-select state as the specification sees it: the highlighted
/// index, or a finished session.
pub enum SingleModel {
    Browsing(nat),
    Chosen(nat),
    Cancelled,
}

/// What one key does in single-select: Up and Down move the highlight,
/// clamped at the bounds (no wraparound), Enter picks the highlighted row,
/// `q` and Escape cancel, anything else is ignored.
pub open spec fn single_step(len: nat, sel: nat, key: MenuKey) -> SingleModel {
    match key {
        MenuKey::Up => SingleModel::Browsing(
            if sel > 0 {
                (sel - 1) as nat
            } else {
                0
            },
        ),
        MenuKey::Down => SingleModel::Browsing(
            if sel + 1 < len {
                sel + 1
            } else {
                sel
            },
        ),
        MenuKey::Enter => SingleModel::Chosen(sel),
        MenuKey::Char(c) => if c == 'q' {
            SingleModel::Cancelled
        } else {
            SingleModel::Browsing(sel)
        },
        MenuKey::Esc => SingleModel::Cancelled,
        MenuKey::Backspace => SingleModel::Browsing(sel),
    }
}

/// The single-select state after a whole script of keys.
pub open spec fn single_run(len: nat, sel: nat, keys: Seq<MenuKey>) -> SingleModel
    decreases keys.len(),
{
    if keys.len() == 0 {
        SingleModel::Browsing(sel)
    } else {
        match single_step(len, sel, keys[0]) {
            SingleModel::Browsing(s) => single_run(len, s, keys.skip(1)),
            m => m,
        }
    }
}

/// What `MenuSelector::step_single` reports after one key.
pub enum SingleStep {
    /// The session continues with this highlighted index.
    Keep(usize),
    /// Enter picked this index.
    Chosen(usize),
    /// The user cancelled.
    Cancelled,
}

// ------------------------------------------------------------------
// Multi-select
// ------------------------------------------------------------------
/// The multi-select state: highlighted index and per-row marks, or a
/// finished session.
pub enum MultiModel {
    Browsing(nat, Seq<bool>),
    Done(Seq<bool>),
    Cancelled,
}

/// What one key does in multi-select: navigation as in single-select, Space
/// toggles the highlighted row's mark, Enter confirms the marked set.
pub open spec fn multi_step(len: nat, sel: nat, marks: Seq<bool>, key: MenuKey) -> MultiModel
    recommends
        sel < len,
        marks.len() == len,
{
    match key {
        MenuKey::Up => MultiModel::Browsing(
            if sel > 0 {
                (sel - 1) as nat
            } else {
                0
            },
            marks,
        ),
        MenuKey::Down => MultiModel::Browsing(
            if sel + 1 < len {
                sel + 1
            } else {
                sel
            },
            marks,
        ),
        MenuKey::Enter => MultiModel::Done(marks),
        MenuKey::Char(c) => if c == 'q' {
            MultiModel::Cancelled
        } else if c == ' ' {
            MultiModel::Browsing(sel, marks.update(sel as int, !marks[sel as int]))
        } else {
            MultiModel::Browsing(sel, marks)
        },
        MenuKey::Esc => MultiModel::Cancelled,
        MenuKey::Backspace => MultiModel::Browsing(sel, marks),
    }
}

/// The multi-select state after a whole script of keys.
pub open spec fn multi_run(len: nat, sel: nat, marks: Seq<bool>, keys: Seq<MenuKey>) -> MultiModel
    decreases keys.len(),
{
    if keys.len() == 0 {
        MultiModel::Browsing(sel, marks)
    } else {
        match multi_step(len, sel, marks, keys[0]) {
            MultiModel::Browsing(s, ms) => multi_run(len, s, ms, keys.skip(1)),
            m => m,
        }
    }
}

/// The indices whose mark is set, in increasing order.
pub open spec fn marked_indices(marks: Seq<bool>) -> Seq<int>
    decreases marks.len(),
{
    if marks.len() == 0 {
        Seq::empty()
    } else if marks.last() {
        marked_indices(marks.drop_last()).push(marks.len() - 1)
    } else {
        marked_indices(marks.drop_last())
    }
}

// ------------------------------------------------------------------
// Custom-entry select
// ------------------------------------------------------------------
/// The custom-entry selector's state: the highlighted index (which may sit
/// on the virtual trailing "add new" row at `len`), whether raw text capture
/// is active, and the captured text; or a finished session.
pub enum CustomModel {
    Browsing(nat, bool, Seq<char>),
    Picked(nat),
    Custom(Seq<char>),
    Cancelled,
}

/// What one key does in the custom-entry selector. While browsing, the
/// highlight may move one row past the items, onto the virtual "add new"
/// row; Enter there (or typing `c`) switches into capture. While capturing,
/// printable ASCII extends the text, Backspace shortens it, Enter returns
/// the text if non-empty and otherwise falls back to the list, and Escape
/// still cancels.
pub open spec fn custom_step(len: nat, sel: nat, capture: bool, text: Seq<char>, key: MenuKey) -> CustomModel {
    if capture {
        match key {
            MenuKey::Enter => if text.len() > 0 {
                CustomModel::Custom(text)
            } else {
                CustomModel::Browsing(sel, false, Seq::empty())
            },
            MenuKey::Char(c) => if is_printable_ascii(c) {
                CustomModel::Browsing(sel, true, text.push(c))
            } else {
                CustomModel::Browsing(sel, true, text)
            },
            MenuKey::Backspace => CustomModel::Browsing(
                sel,
                true,
                if text.len() > 0 {
                    text.drop_last()
                } else {
                    text
                },
            ),
            MenuKey::Esc => CustomModel::Cancelled,
            _ => CustomModel::Browsing(sel, true, text),
        }
    } else {
        match key {
            MenuKey::Up => CustomModel::Browsing(
                if sel > 0 {
                    (sel - 1) as nat
                } else {
                    0
                },
                false,
                text,
            ),
            MenuKey::Down => CustomModel::Browsing(
                if sel < len {
                    sel + 1
                } else {
                    sel
                },
                false,
                text,
            ),
            MenuKey::Enter => if sel == len {
                CustomModel::Browsing(sel, true, Seq::empty())
            } else {
                CustomModel::Picked(sel)
            },
            MenuKey::Char(c) => if c == 'q' {
                CustomModel::Cancelled
            } else if c == 'c' {
                CustomModel::Browsing(sel, true, Seq::empty())
            } else {
                CustomModel::Browsing(sel, false, text)
            },
            MenuKey::Esc => CustomModel::Cancelled,
            MenuKey::Backspace => CustomModel::Browsing(sel, false, text),
        }
    }
}

/// The custom-entry selector's state after a whole script of keys.
pub open spec fn custom_run(
    len: nat,
    sel: nat,
    capture: bool,
    text: Seq<char>,
    keys: Seq<MenuKey>,
) -> CustomModel
    decreases keys.len(),
{
    if keys.len() == 0 {
        CustomModel::Browsing(sel, capture, text)
    } else {
        match custom_step(len, sel, capture, text, keys[0]) {
            CustomModel::Browsing(s, cap, t) => custom_run(len, s, cap, t, keys.skip(1)),
            m => m,
        }
    }
}

/// What a finished custom-entry session returned: a picked item's index, or
/// a newly typed value.
pub enum CustomSelection {
    Picked(usize),
    Custom(String),
}

/// The built-in menu selector.
pub struct MenuSelector;

impl MenuSelector {
    /// One key of a single-select session over `len` items: the next
    /// highlight, the chosen index, or a cancellation.
    pub fn step_single(len: usize, sel: usize, key: &MenuKey) -> (r: SingleStep)
        requires
            sel < len,
        ensures
            ({
                let m = single_step(len as nat, sel as nat, *key);
                match r {
                    SingleStep::Keep(s) => m matches SingleModel::Browsing(t) && s as nat == t && s
                        < len,
                    SingleStep::Chosen(s) => m matches SingleModel::Chosen(t) && s as nat == t && s
                        < len,
                    SingleStep::Cancelled => m is Cancelled,
                }
            }),
    {
        match key {
            MenuKey::Up => SingleStep::Keep(
                if sel > 0 {
                    sel - 1
                } else {
                    0
                },
            ),
            MenuKey::Down => SingleStep::Keep(
                if sel + 1 < len {
                    sel + 1
                } else {
                    sel
                },
            ),
            MenuKey::Enter => SingleStep::Chosen(sel),
            MenuKey::Char(c) => if *c == 'q' {
                SingleStep::Cancelled
            } else {
                SingleStep::Keep(sel)
            },
            MenuKey::Esc => SingleStep::Cancelled,
            MenuKey::Backspace => SingleStep::Keep(sel),
        }
    }

    /// A whole single-select session over a script of keys, starting with
    /// the first row highlighted. An empty item list selects nothing at
    /// once, without looking at any key; a script that ends the session
    /// neither by Enter nor by cancelling selects nothing.
    pub fn select_single(items: &Vec<String>, keys: &Vec<MenuKey>) -> (r: Option<usize>)
        ensures
            items@.len() == 0 ==> r is None,
            items@.len() > 0 ==> match single_run(items@.len(), 0, keys@) {
                SingleModel::Chosen(i) => r == Some(i as usize) && i < items@.len(),
                _ => r is None,
            },
    {
        let len: usize = items.len();
        if len == 0 {
            return None;
        }
        let mut sel: usize = 0;
        let n: usize = keys.len();
        let mut i: usize = 0;
        proof {
            assert(keys@.skip(0) =~= keys@);
        }
        while i < n
            invariant
                i <= n,
                n == keys@.len(),
                sel < len,
                len == items@.len(),
                single_run(len as nat, 0, keys@) == single_run(
                    len as nat,
                    sel as nat,
                    keys@.skip(i as int),
                ),
            decreases n - i,
        {
            proof {
                assert(keys@.skip(i as int)[0] == keys@[i as int]);
                assert(keys@.skip(i as int).skip(1) =~= keys@.skip(i as int + 1));
            }
            match Self::step_single(len, sel, &keys[i]) {
                SingleStep::Keep(s) => {
                    sel = s;
                },
                SingleStep::Chosen(s) => {
                    return Some(s);
                },
                SingleStep::Cancelled => {
                    return None;
                },
            }
            i = i + 1;
        }
        proof {
            assert(keys@.skip(n as int) =~= Seq::<MenuKey>::empty());
        }
        None
    }

    /// One key of a multi-select session: updates the marks in place and
    /// reports the next highlight, a confirmation, or a cancellation.
    pub fn step_multi(len: usize, sel: usize, marks: &mut Vec<bool>, key: &MenuKey) -> (r:
        SingleStep)
        requires
            sel < len,
            old(marks)@.len() == len,
        ensures
            final(marks)@.len() == len,
            ({
                let m = multi_step(len as nat, sel as nat, old(marks)@, *key);
                match r {
                    SingleStep::Keep(s) => m matches MultiModel::Browsing(t, ms) && s as nat == t
                        && s < len && final(marks)@ == ms,
                    SingleStep::Chosen(s) => m matches MultiModel::Done(ms) && final(marks)@ == ms
                        && s == sel,
                    SingleStep::Cancelled => m is Cancelled && final(marks)@ == old(marks)@,
                }
            }),
    {
        match key {
            MenuKey::Up => SingleStep::Keep(
                if sel > 0 {
                    sel - 1
                } else {
                    0
                },
            ),
            MenuKey::Down => SingleStep::Keep(
                if sel + 1 < len {
                    sel + 1
                } else {
                    sel
                },
            ),
            MenuKey::Enter => SingleStep::Chosen(sel),
            MenuKey::Char(c) => if *c == 'q' {
                SingleStep::Cancelled
            } else if *c == ' ' {
                let cur = marks[sel];
                marks.set(sel, !cur);
                SingleStep::Keep(sel)
            } else {
                SingleStep::Keep(sel)
            },
            MenuKey::Esc => SingleStep::Cancelled,
            MenuKey::Backspace => SingleStep::Keep(sel),
        }
    }

    /// A whole multi-select session over a script of keys: the indices the
    /// user marked, in increasing order. An empty item list, a cancelled
    /// session, and an exhausted script all select nothing.
    pub fn select_multi(items: &Vec<String>, keys: &Vec<MenuKey>) -> (r: Vec<usize>)
        ensures
            items@.len() == 0 ==> r@.len() == 0,
            items@.len() > 0 ==> match multi_run(
                items@.len(),
                0,
                Seq::new(items@.len(), |i: int| false),
                keys@,
            ) {
                MultiModel::Done(ms) => r@.map_values(|x: usize| x as int) == marked_indices(ms),
                _ => r@.len() == 0,
            },
    {
        let len: usize = items.len();
        if len == 0 {
            return Vec::new();
        }
        let mut marks: Vec<bool> = Vec::new();
        let mut j: usize = 0;
        while j < len
            invariant
                j <= len,
                marks@.len() == j,
                forall|t: int| 0 <= t < j ==> !(#[trigger] marks@[t]),
            decreases len - j,
        {
            marks.push(false);
            j = j + 1;
        }
        proof {
            assert(marks@ =~= Seq::new(items@.len(), |i: int| false));
            assert(keys@.skip(0) =~= keys@);
        }
        let mut sel: usize = 0;
        let n: usize = keys.len();
        let mut i: usize = 0;
        while i < n
            invariant
                i <= n,
                n == keys@.len(),
                sel < len,
                len == items@.len(),
                marks@.len() == len,
                multi_run(len as nat, 0, Seq::new(items@.len(), |t: int| false), keys@)
                    == multi_run(len as nat, sel as nat, marks@, keys@.skip(i as int)),
            decreases n - i,
        {
            proof {
                assert(keys@.skip(i as int)[0] == keys@[i as int]);
                assert(keys@.skip(i as int).skip(1) =~= keys@.skip(i as int + 1));
            }
            match Self::step_multi(len, sel, &mut marks, &keys[i]) {
                SingleStep::Keep(s) => {
                    sel = s;
                },
                SingleStep::Chosen(_s) => {
                    return Self::collect_marked(&marks);
                },
                SingleStep::Cancelled => {
                    return Vec::new();
                },
            }
            i = i + 1;
        }
        proof {
            assert(keys@.skip(n as int) =~= Seq::<MenuKey>::empty());
        }
        Vec::new()
    }

    /// The indices whose mark is set, in increasing order.
    fn collect_marked(marks: &Vec<bool>) -> (r: Vec<usize>)
        ensures
            r@.map_values(|x: usize| x as int) == marked_indices(marks@),
    {
        let n: usize = marks.len();
        let mut r: Vec<usize> = Vec::new();
        let mut i: usize = 0;
        proof {
            assert(marks@.take(0) =~= Seq::<bool>::empty());
            assert(r@.map_values(|x: usize| x as int) =~= marked_indices(marks@.take(0)));
        }
        while i < n
            invariant
                i <= n,
                n == marks@.len(),
                r@.map_values(|x: usize| x as int) == marked_indices(marks@.take(i as int)),
            decreases n - i,
        {
            if marks[i] {
                r.push(i);
            }
            i = i + 1;
            proof {
                assert(marks@.take(i as int).drop_last() =~= marks@.take(i as int - 1));
                assert(r@.map_values(|x: usize| x as int) =~= marked_indices(
                    marks@.take(i as int),
                ));
            }
        }
        proof {
            assert(marks@.take(n as int) =~= marks@);
        }
        r
    }

    /// One key of a custom-entry session: updates the captured text in place
    /// and reports the next highlight and capture flag, a picked index, a
    /// typed value, or a cancellation.
    pub fn step_custom(
        len: usize,
        sel: usize,
        capture: bool,
        text: &mut Vec<char>,
        key: &MenuKey,
    ) -> (r: CustomStep)
        requires
            sel <= len,
        ensures
            ({
                let m = custom_step(len as nat, sel as nat, capture, old(text)@, *key);
                match r {
                    CustomStep::Keep(s, cap) => m matches CustomModel::Browsing(t, c2, tx) && s
                        as nat == t && cap == c2 && final(text)@ == tx && s <= len,
                    CustomStep::Picked(s) => m matches CustomModel::Picked(t) && s as nat == t && s
                        < len,
                    CustomStep::Custom(v) => m matches CustomModel::Custom(tx) && v@ == tx,
                    CustomStep::Cancelled => m is Cancelled,
                }
            }),
    {
        if capture {
            match key {
                MenuKey::Enter => {
                    if text.len() > 0 {
                        let v = string_from_chars(text);
                        CustomStep::Custom(v)
                    } else {
                        CustomStep::Keep(sel, false)
                    }
                },
                MenuKey::Char(c) => {
                    if ' ' <= *c && *c <= '~' {
                        text.push(*c);
                    }
                    CustomStep::Keep(sel, true)
                },
                MenuKey::Backspace => {
                    if text.len() > 0 {
                        let _c = text.pop();
                    }
                    CustomStep::Keep(sel, true)
                },
                MenuKey::Esc => CustomStep::Cancelled,
                _ => CustomStep::Keep(sel, true),
            }
        } else {
            match key {
                MenuKey::Up => CustomStep::Keep(
                    if sel > 0 {
                        sel - 1
                    } else {
                        0
                    },
                    false,
                ),
                MenuKey::Down => CustomStep::Keep(
                    if sel < len {
                        sel + 1
                    } else {
                        sel
                    },
                    false,
                ),
                MenuKey::Enter => {
                    if sel == len {
                        text.clear();
                        CustomStep::Keep(sel, true)
                    } else {
                        CustomStep::Picked(sel)
                    }
                },
                MenuKey::Char(c) => {
                    if *c == 'q' {
                        CustomStep::Cancelled
                    } else if *c == 'c' {
                        text.clear();
                        CustomStep::Keep(sel, true)
                    } else {
                        CustomStep::Keep(sel, false)
                    }
                },
                MenuKey::Esc => CustomStep::Cancelled,
                MenuKey::Backspace => CustomStep::Keep(sel, false),
            }
        }
    }

    /// A whole custom-entry session over a script of keys: a picked item's
    /// index, a typed value, or nothing when cancelled, exhausted, or the
    /// item list is empty.
    pub fn select_with_custom(items: &Vec<String>, keys: &Vec<MenuKey>) -> (r: Option<
        CustomSelection,
    >)
        ensures
            items@.len() == 0 ==> r is None,
            items@.len() > 0 ==> match custom_run(items@.len(), 0, false, Seq::empty(), keys@) {
                CustomModel::Picked(i) => r matches Some(CustomSelection::Picked(s)) && s as nat
                    == i && i < items@.len(),
                CustomModel::Custom(tx) => r matches Some(CustomSelection::Custom(v)) && v@ == tx,
                _ => r is None,
            },
    {
        let len: usize = items.len();
        if len == 0 {
            return None;
        }
        let mut sel: usize = 0;
        let mut capture = false;
        let mut text: Vec<char> = Vec::new();
        let n: usize = keys.len();
        let mut i: usize = 0;
        proof {
            assert(keys@.skip(0) =~= keys@);
            assert(text@ =~= Seq::<char>::empty());
        }
        while i < n
            invariant
                i <= n,
                n == keys@.len(),
                sel <= len,
                1 <= len == items@.len(),
                custom_run(len as nat, 0, false, Seq::empty(), keys@) == custom_run(
                    len as nat,
                    sel as nat,
                    capture,
                    text@,
                    keys@.skip(i as int),
                ),
            decreases n - i,
        {
            proof {
                assert(keys@.skip(i as int)[0] == keys@[i as int]);
                assert(keys@.skip(i as int).skip(1) =~= keys@.skip(i as int + 1));
            }
            match Self::step_custom(len, sel, capture, &mut text, &keys[i]) {
                CustomStep::Keep(s, cap) => {
                    sel = s;
                    capture = cap;
                },
                CustomStep::Picked(s) => {
                    return Some(CustomSelection::Picked(s));
                },
                CustomStep::Custom(v) => {
                    return Some(CustomSelection::Custom(v));
                },
                CustomStep::Cancelled => {
                    return None;
                },
            }
            i = i + 1;
        }
        proof {
            assert(keys@.skip(n as int) =~= Seq::<MenuKey>::empty());
        }
        None
    }
}

/// What `MenuSelector::step_custom` reports after one key.
pub enum CustomStep {
    /// The session continues with this highlight and capture flag.
    Keep(usize, bool),
    /// Enter picked this item index.
    Picked(usize),
    /// Enter returned this typed value.
    Custom(String),
    /// The user cancelled.
    Cancelled,
}

} // verus!
