//! Selection state machines for flat and paged directory listings.
use vstd::prelude::*;

verus! {

/// What a listed entry is.
#[derive(Debug, Clone, Copy, PartialEq, Eq, Structural)]
pub enum EntryKind {
    Directory,
    Epub,
    Other,
}

/// A listed entry: its name and kind.
#[derive(Debug, Clone, Copy, PartialEq, Eq)]
pub struct Entry<'a> {
    pub name: &'a str,
    pub kind: EntryKind,
}

/// Navigation input.
#[derive(Debug, Clone, Copy, PartialEq, Eq, Structural)]
pub enum Input {
    Left,
    Right,
    Up,
    Down,
}

/// What a flat browser asks the caller to do.
#[derive(Debug, Clone, Copy, PartialEq, Eq, Structural)]
pub enum Action {
    Nothing,
    Selected(usize),
}

/// What a paged browser asks the caller to do.
#[derive(Debug, Clone, Copy, PartialEq, Eq, Structural)]
pub enum PagedAction {
    Nothing,
    Redraw,
    LoadPage { page_start: usize, selected: usize },
    OpenSelected(usize),
}

/// The abstract state of a paged browser.
pub struct PagedBrowserView {
    pub page_start: nat,
    pub selected: nat,
    pub page_size: nat,
}

/// A selection inside one page of a listing that is loaded page by page.
#[derive(Debug, Clone, Copy, Default)]
pub struct PagedBrowser {
    page_start: usize,
    selected: usize,
    page_size: usize,
}

impl View for PagedBrowser {
    type V = PagedBrowserView;

    closed spec fn view(&self) -> PagedBrowserView {
        PagedBrowserView {
            page_start: self.page_start as nat,
            selected: self.selected as nat,
            page_size: self.page_size as nat,
        }
    }
}

/// `a - b` floored at zero.
pub open spec fn sat_sub(a: nat, b: nat) -> nat {
    if a >= b { (a - b) as nat } else { 0 }
}

/// `a + b` capped at `usize::MAX`.
pub open spec fn sat_add_usize(a: nat, b: nat) -> nat {
    if a + b > usize::MAX { usize::MAX as nat } else { a + b }
}

/// The clamped selection of a listing of `len` entries.
pub open spec fn clamped_selection(selected: nat, len: nat) -> Option<nat> {
    if len == 0 {
        None
    } else if selected <= len - 1 {
        Some(selected)
    } else {
        Some((len - 1) as nat)
    }
}

/// The state after paging back, with the last row of the previous page selected.
pub open spec fn paged_back(v: PagedBrowserView) -> PagedBrowserView {
    PagedBrowserView {
        page_start: sat_sub(v.page_start, v.page_size),
        selected: sat_sub(v.page_size, 1),
        page_size: v.page_size,
    }
}

/// One step of the paged browser: next state and requested action.
pub open spec fn paged_handle(
    v: PagedBrowserView,
    input: Input,
    page_len: nat,
    has_prev: bool,
    has_next: bool,
) -> (PagedBrowserView, PagedAction) {
    if page_len == 0 {
        (v, PagedAction::Nothing)
    } else {
        match input {
            Input::Left => if v.selected > 0 {
                (PagedBrowserView { selected: (v.selected - 1) as nat, ..v }, PagedAction::Redraw)
            } else if has_prev {
                let n = paged_back(v);
                (n, PagedAction::LoadPage { page_start: n.page_start as usize, selected: n.selected as usize })
            } else {
                (v, PagedAction::Nothing)
            },
            Input::Right => if v.selected + 1 < page_len {
                (PagedBrowserView { selected: v.selected + 1, ..v }, PagedAction::Redraw)
            } else if has_next {
                let n = PagedBrowserView {
                    page_start: sat_add_usize(v.page_start, v.page_size),
                    selected: 0,
                    page_size: v.page_size,
                };
                (n, PagedAction::LoadPage { page_start: n.page_start as usize, selected: 0 })
            } else {
                (v, PagedAction::Nothing)
            },
            Input::Up => if has_prev {
                let n = paged_back(v);
                (n, PagedAction::LoadPage { page_start: n.page_start as usize, selected: n.selected as usize })
            } else {
                (v, PagedAction::Nothing)
            },
            Input::Down => (v, PagedAction::OpenSelected((v.page_start + v.selected) as usize)),
        }
    }
}

/// Moving within a page goes one row at a time: Left on a row below the first
/// selects the row just above it and Right on a row above the last selects the
/// row just below it, each redrawing the same page.
pub proof fn law_moves_within_page_are_one_row(v: PagedBrowserView, page_len: nat, has_prev: bool, has_next: bool)
    requires
        page_len > 0,
    ensures
        v.selected > 0 ==> ({
            let (n, a) = paged_handle(v, Input::Left, page_len, has_prev, has_next);
            &&& n.selected + 1 == v.selected
            &&& n.page_start == v.page_start
            &&& n.page_size == v.page_size
            &&& a == PagedAction::Redraw
        }),
        v.selected + 1 < page_len ==> ({
            let (n, a) = paged_handle(v, Input::Right, page_len, has_prev, has_next);
            &&& n.selected == v.selected + 1
            &&& n.page_start == v.page_start
            &&& n.page_size == v.page_size
            &&& a == PagedAction::Redraw
        }),
{
}

/// Right undoes Left and Left undoes Right inside a page: the selection comes
/// back to the row it started on.
pub proof fn law_left_and_right_undo_each_other(
    v: PagedBrowserView,
    page_len: nat,
    has_prev: bool,
    has_next: bool,
)
    requires
        page_len > 0,
    ensures
        0 < v.selected < page_len ==> paged_handle(
            paged_handle(v, Input::Left, page_len, has_prev, has_next).0,
            Input::Right,
            page_len,
            has_prev,
            has_next,
        ).0 == v,
        v.selected + 1 < page_len ==> paged_handle(
            paged_handle(v, Input::Right, page_len, has_prev, has_next).0,
            Input::Left,
            page_len,
            has_prev,
            has_next,
        ).0 == v,
{
}

/// Leaving a page moves the listing by one page: Right on the last row of a
/// page with a next one loads the next page with its first row selected, and
/// Left on the first row of a page with a previous one loads the previous page
/// with its last row selected. Down opens the selected entry of the listing.
pub proof fn law_page_turns_move_by_page_size(v: PagedBrowserView, page_len: nat, has_prev: bool, has_next: bool)
    requires
        page_len > 0,
    ensures
        v.selected + 1 >= page_len && has_next ==> ({
            let (n, a) = paged_handle(v, Input::Right, page_len, has_prev, has_next);
            &&& n.page_start == (if v.page_start + v.page_size > usize::MAX {
                usize::MAX as int
            } else {
                (v.page_start + v.page_size) as int
            })
            &&& n.selected == 0
            &&& a == PagedAction::LoadPage { page_start: n.page_start as usize, selected: 0 }
        }),
        v.selected == 0 && has_prev ==> ({
            let (n, a) = paged_handle(v, Input::Left, page_len, has_prev, has_next);
            &&& n.page_start == (if v.page_start >= v.page_size { v.page_start - v.page_size } else { 0 })
            &&& n.selected + 1 == (if v.page_size > 0 { v.page_size as int } else { 1 })
            &&& a == PagedAction::LoadPage { page_start: n.page_start as usize, selected: n.selected as usize }
        }),
        paged_handle(v, Input::Down, page_len, has_prev, has_next) == (v, PagedAction::OpenSelected(
            (v.page_start + v.selected) as usize,
        )),
{
}

impl PagedBrowser {
    #[verifier::type_invariant]
    spec fn inv(self) -> bool {
        self.selected < usize::MAX
    }

    /// A browser on the first page with the first row selected.
    pub fn new(page_size: usize) -> (r: Self)
        ensures
            r@ == (PagedBrowserView { page_start: 0, selected: 0, page_size: page_size as nat }),
    {
        Self { page_start: 0, selected: 0, page_size }
    }

    /// The selected row clamped into a page of `len` rows; `None` for an empty page.
    pub fn selected_index(&self, len: usize) -> (r: Option<usize>)
        ensures
            r matches Some(i) ==> clamped_selection(self@.selected, len as nat) == Some(i as nat),
            r is None <==> clamped_selection(self@.selected, len as nat) is None,
    {
        if len == 0 {
            None
        } else {
            Some(if self.selected < len - 1 { self.selected } else { len - 1 })
        }
    }

    /// Index of the first row of the current page.
    pub fn page_start(&self) -> (r: usize)
        ensures
            r == self@.page_start,
    {
        self.page_start
    }

    /// Moves to a loaded page, clamping the selection to its length.
    pub fn set_page(&mut self, page_start: usize, page_len: usize, selected: usize)
        ensures
            final(self)@ == (PagedBrowserView {
                page_start: page_start as nat,
                selected: if selected as nat <= sat_sub(page_len as nat, 1) { selected as nat } else {
                    sat_sub(page_len as nat, 1) },
                page_size: old(self)@.page_size,
            }),
    {
        proof {
            use_type_invariant(&*self);
        }
        let last = page_len.saturating_sub(1);
        let sel = if selected < last { selected } else { last };
        proof {
            assert(sel < usize::MAX);
        }
        self.page_start = page_start;
        self.selected = sel;
    }

    /// Applies one input to a page of `page_len` rows.
    pub fn handle(&mut self, input: Input, page_len: usize, has_prev: bool, has_next: bool) -> (r: PagedAction)
        requires
            input == Input::Down && page_len > 0 ==> old(self)@.page_start + old(self)@.selected <= usize::MAX,
        ensures
            (final(self)@, r) == paged_handle(old(self)@, input, page_len as nat, has_prev, has_next),
            input == Input::Left && page_len > 0 && old(self)@.selected > 0 ==> r == PagedAction::Redraw
                && final(self)@.selected + 1 == old(self)@.selected && final(self)@.page_start == old(self)@.page_start,
            input == Input::Right && old(self)@.selected + 1 < page_len ==> r == PagedAction::Redraw
                && final(self)@.selected == old(self)@.selected + 1 && final(self)@.page_start == old(self)@.page_start,
    {
        proof {
            use_type_invariant(&*self);
        }
        if page_len == 0 {
            return PagedAction::Nothing;
        }
        match input {
            Input::Left => {
                if self.selected > 0 {
                    self.selected = self.selected - 1;
                    PagedAction::Redraw
                } else if has_prev {
                    self.page_start = self.page_start.saturating_sub(self.page_size);
                    self.selected = self.page_size.saturating_sub(1);
                    PagedAction::LoadPage { page_start: self.page_start, selected: self.selected }
                } else {
                    PagedAction::Nothing
                }
            },
            Input::Right => {
                if self.selected + 1 < page_len {
                    self.selected = self.selected + 1;
                    PagedAction::Redraw
                } else if has_next {
                    self.page_start = self.page_start.saturating_add(self.page_size);
                    self.selected = 0;
                    PagedAction::LoadPage { page_start: self.page_start, selected: self.selected }
                } else {
                    PagedAction::Nothing
                }
            },
            Input::Up => {
                if has_prev {
                    self.page_start = self.page_start.saturating_sub(self.page_size);
                    self.selected = self.page_size.saturating_sub(1);
                    PagedAction::LoadPage { page_start: self.page_start, selected: self.selected }
                } else {
                    PagedAction::Nothing
                }
            },
            Input::Down => PagedAction::OpenSelected(self.page_start + self.selected),
        }
    }
}

/// A selection inside a fully loaded listing.
#[derive(Debug, Clone, Copy, Default)]
pub struct Browser {
    selected: usize,
}

impl View for Browser {
    type V = nat;

    closed spec fn view(&self) -> nat {
        self.selected as nat
    }
}

/// One step of the flat browser: next selection and action.
pub open spec fn browser_handle(selected: nat, input: Input, len: nat) -> (nat, Action) {
    match input {
        Input::Left => (if len == 0 || selected == 0 { selected } else { (selected - 1) as nat }, Action::Nothing),
        Input::Right => (if len == 0 || selected + 1 >= len { selected } else { selected + 1 }, Action::Nothing),
        Input::Up => (selected, Action::Nothing),
        Input::Down => (selected, match clamped_selection(selected, len) {
            Some(i) => Action::Selected(i as usize),
            None => Action::Nothing,
        }),
    }
}

impl Browser {
    #[verifier::type_invariant]
    spec fn inv(self) -> bool {
        self.selected < usize::MAX
    }

    pub fn new() -> (r: Self)
        ensures
            r@ == 0,
    {
        Self { selected: 0 }
    }

    /// The selection clamped into a listing of `len` entries.
    pub fn selected_index(&self, len: usize) -> (r: Option<usize>)
        ensures
            r matches Some(i) ==> clamped_selection(self@, len as nat) == Some(i as nat),
            r is None <==> clamped_selection(self@, len as nat) is None,
    {
        if len == 0 {
            None
        } else {
            Some(if self.selected < len - 1 { self.selected } else { len - 1 })
        }
    }

    /// The selected entry of `entries`, if any.
    pub fn selected_entry<'a>(&self, entries: &'a [Entry<'a>]) -> (r: Option<&'a Entry<'a>>)
        ensures
            r is None <==> entries@.len() == 0,
            r matches Some(e) ==> exists|i: nat| clamped_selection(self@, entries@.len()) == Some(i)
                && *e == entries@[i as int],
    {
        match self.selected_index(entries.len()) {
            Some(index) => Some(&entries[index]),
            None => None,
        }
    }

    /// Applies one input to a listing of `len` entries.
    pub fn handle(&mut self, input: Input, len: usize) -> (r: Action)
        ensures
            (final(self)@, r) == browser_handle(old(self)@, input, len as nat),
    {
        match input {
            Input::Left => {
                self.move_left(len);
                Action::Nothing
            },
            Input::Right => {
                self.move_right(len);
                Action::Nothing
            },
            Input::Up => Action::Nothing,
            Input::Down => match self.selected_index(len) {
                Some(i) => Action::Selected(i),
                None => Action::Nothing,
            },
        }
    }

    fn move_left(&mut self, len: usize)
        ensures
            final(self)@ == (if len == 0 || old(self)@ == 0 { old(self)@ } else { (old(self)@ - 1) as nat }),
    {
        if len == 0 || self.selected == 0 {
            return;
        }
        self.selected = self.selected - 1;
    }

    fn move_right(&mut self, len: usize)
        ensures
            final(self)@ == (if len == 0 || old(self)@ + 1 >= len { old(self)@ } else { old(self)@ + 1 }),
    {
        proof {
            use_type_invariant(&*self);
        }
        if len == 0 || self.selected + 1 >= len {
            return;
        }
        self.selected = self.selected + 1;
    }
}

} // verus!
