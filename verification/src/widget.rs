//! The search box of a select box: whether it has the focus, which row of
//! the dropdown is highlighted, and the text typed so far.
//!
//! `Select::update` decides what a message does to the box and what its
//! owner has to do next. It performs nothing itself: the owner filters,
//! notifies and sends the follow-up messages that the returned `Effect`
//! names.

use crate::state::SelectState;
use vstd::prelude::*;

verus! {

/// What can happen to a select box.
pub enum Msg {
    /// Nothing happened.
    Noop,
    /// The search text was edited and now reads as given.
    Input(String),
    /// The search text was dismissed.
    ClearSearch,
    /// A filter pass has finished.
    Filtered,
    /// The option at this index was picked from the dropdown.
    Selected(usize),
    /// The option at this index was removed from the selection.
    Removed(usize),
    /// The pointer is over the dropdown row at this position.
    Hover(usize),
    /// The box gained the focus.
    Focus,
    /// The box lost the focus.
    Blur,
    /// A key went down; the text is the code of the key.
    KeyPress(String),
}

/// What the owner of a select box has to do after a message.
pub enum Effect {
    /// Nothing.
    Idle,
    /// Filter the options by this text, then send `Msg::Filtered`.
    Filter(String),
    /// Drop the filter, then send `Msg::Filtered`.
    Unfilter,
    /// Report that the option at this index was selected, then send
    /// `Msg::ClearSearch` and `Msg::Blur`.
    NotifySelected(usize),
    /// Report that the option at this index was removed.
    NotifyRemoved(usize),
    /// Send `Msg::Selected` with this index.
    Pick(usize),
    /// Keep the key from doing what it does by default.
    HoldKey,
}

/// What a search box is, mathematically.
pub struct WidgetView {
    /// The box has the focus.
    pub focused: bool,
    /// The position of the highlighted row of the dropdown.
    pub selection_index: usize,
    /// The text typed so far.
    pub search_text: Seq<char>,
}

/// The code of the key that accepts the highlighted row.
pub open spec fn enter() -> Seq<char> {
    "Enter"@
}

/// The code of the key that moves the highlight up.
pub open spec fn arrow_up() -> Seq<char> {
    "ArrowUp"@
}

/// The code of the key that moves the highlight down.
pub open spec fn arrow_down() -> Seq<char> {
    "ArrowDown"@
}

impl WidgetView {
    /// The box after `msg`.
    ///
    /// Typing gives the focus and replaces the text. Dismissing the search
    /// empties the text. Hovering moves the highlight. Losing the focus
    /// puts the highlight back on the first row and empties the text. An
    /// arrow key gives the focus and moves the highlight by one row, up to
    /// the first row or down as far as a position can count.
    pub open spec fn next(self, msg: Msg) -> WidgetView {
        match msg {
            Msg::Input(text) => WidgetView { focused: true, search_text: text@, ..self },
            Msg::ClearSearch => WidgetView { search_text: Seq::empty(), ..self },
            Msg::Hover(position) => WidgetView { selection_index: position, ..self },
            Msg::Focus => WidgetView { focused: true, ..self },
            Msg::Blur => WidgetView {
                focused: false,
                selection_index: 0,
                search_text: Seq::empty(),
            },
            Msg::KeyPress(code) => if code@ == arrow_up() {
                WidgetView {
                    focused: true,
                    selection_index: if self.selection_index > 0 {
                        (self.selection_index - 1) as usize
                    } else {
                        0
                    },
                    ..self
                }
            } else if code@ == arrow_down() {
                WidgetView {
                    focused: true,
                    selection_index: if self.selection_index < usize::MAX {
                        (self.selection_index + 1) as usize
                    } else {
                        self.selection_index
                    },
                    ..self
                }
            } else {
                self
            },
            _ => self,
        }
    }

    /// Whether the box has to be drawn again after `msg`.
    pub open spec fn renders(msg: Msg) -> bool {
        match msg {
            Msg::Noop => false,
            Msg::Selected(_) => false,
            Msg::Removed(_) => false,
            Msg::KeyPress(code) => code@ == arrow_up() || code@ == arrow_down(),
            _ => true,
        }
    }

    /// What the owner has to do after `msg`, where `highlighted` is the
    /// index of the option shown in the highlighted row, if that row shows
    /// one.
    pub open spec fn effect(msg: Msg, highlighted: Option<usize>) -> Effect {
        match msg {
            Msg::Input(text) => if text@.len() == 0 {
                Effect::Unfilter
            } else {
                Effect::Filter(text)
            },
            Msg::ClearSearch => Effect::Unfilter,
            Msg::Selected(index) => Effect::NotifySelected(index),
            Msg::Removed(index) => Effect::NotifyRemoved(index),
            Msg::KeyPress(code) => if code@ == enter() {
                match highlighted {
                    Option::Some(index) => Effect::Pick(index),
                    Option::None => Effect::Idle,
                }
            } else if code@ == arrow_up() || code@ == arrow_down() {
                Effect::HoldKey
            } else {
                Effect::Idle
            },
            _ => Effect::Idle,
        }
    }
}

/// The search box of a select box.
pub struct Select {
    focused: bool,
    selection_index: usize,
    search_text: String,
}

impl View for Select {
    type V = WidgetView;

    closed spec fn view(&self) -> WidgetView {
        WidgetView {
            focused: self.focused,
            selection_index: self.selection_index,
            search_text: self.search_text@,
        }
    }
}

/// The three key codes that the box reacts to are three different texts.
pub proof fn lemma_key_codes_differ()
    ensures
        enter() != arrow_up(),
        enter() != arrow_down(),
        arrow_up() != arrow_down(),
{
    reveal_strlit("Enter");
    reveal_strlit("ArrowUp");
    reveal_strlit("ArrowDown");
    assert(enter().len() == 5);
    assert(arrow_up().len() == 7);
    assert(arrow_down().len() == 9);
}

/// Whether the key code `code` reads `name`.
fn reads(code: &String, name: &str) -> (r: bool)
    ensures
        r == (code@ == name@),
{
    let expected = name.to_owned();
    *code == expected
}

impl Select {
    /// A box without the focus, with the first row highlighted and no text.
    pub fn create() -> (r: Self)
        ensures
            r@ == (WidgetView { focused: false, selection_index: 0, search_text: Seq::empty() }),
    {
        Select { focused: false, selection_index: 0, search_text: String::new() }
    }

    /// Whether the box has the focus.
    pub fn focused(&self) -> (r: bool)
        ensures
            r == self@.focused,
    {
        self.focused
    }

    /// The position of the highlighted row of the dropdown.
    pub fn selection_index(&self) -> (r: usize)
        ensures
            r == self@.selection_index,
    {
        self.selection_index
    }

    /// The text typed so far.
    pub fn search_text(&self) -> (r: &str)
        ensures
            r@ == self@.search_text,
    {
        self.search_text.as_str()
    }

    /// Take `msg` in. Returns whether the box has to be drawn again, and
    /// what the owner has to do next. `options` is the state that the box
    /// searches: the key that accepts a row picks the option shown there.
    pub fn update<T, F: Fn(&T, &str) -> bool>(
        &mut self,
        msg: Msg,
        options: &SelectState<T, F>,
    ) -> (r: (bool, Effect))
        ensures
            final(self)@ == old(self)@.next(msg),
            r.0 == WidgetView::renders(msg),
            r.1 == WidgetView::effect(msg, options@.shown_at(old(self)@.selection_index)),
    {
        match msg {
            Msg::Noop => (false, Effect::Idle),
            Msg::Filtered => (true, Effect::Idle),
            Msg::Input(input) => {
                self.focused = true;
                self.search_text = input.clone();
                if input.as_str().is_empty() {
                    (true, Effect::Unfilter)
                } else {
                    (true, Effect::Filter(input))
                }
            },
            Msg::ClearSearch => {
                self.search_text = String::new();
                (true, Effect::Unfilter)
            },
            Msg::Selected(index) => (false, Effect::NotifySelected(index)),
            Msg::Removed(index) => (false, Effect::NotifyRemoved(index)),
            Msg::Hover(position) => {
                self.selection_index = position;
                (true, Effect::Idle)
            },
            Msg::Focus => {
                self.focused = true;
                (true, Effect::Idle)
            },
            Msg::Blur => {
                self.focused = false;
                self.selection_index = 0;
                self.search_text = String::new();
                (true, Effect::Idle)
            },
            Msg::KeyPress(code) => {
                proof {
                    lemma_key_codes_differ();
                }
                if reads(&code, "Enter") {
                    match options.get_filtered(self.selection_index) {
                        Some(found) => (false, Effect::Pick(found.0)),
                        None => (false, Effect::Idle),
                    }
                } else if reads(&code, "ArrowUp") {
                    self.focused = true;
                    if self.selection_index > 0 {
                        self.selection_index = self.selection_index - 1;
                    }
                    (true, Effect::HoldKey)
                } else if reads(&code, "ArrowDown") {
                    self.focused = true;
                    if self.selection_index < usize::MAX {
                        self.selection_index = self.selection_index + 1;
                    }
                    (true, Effect::HoldKey)
                } else {
                    (false, Effect::Idle)
                }
            },
        }
    }
}

} // verus!
