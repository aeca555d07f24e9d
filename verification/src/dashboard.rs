//! The dashboard's interaction state machine: input modes, search editing
//! and selection navigation.
//!
//! Every transition is one total step function ([`ui_step`]) from the
//! current state, the store's name list and one input event to the next
//! state; the render loop applies it once per polled event.

use vstd::prelude::*;

use crate::query::filter_names;
use crate::store::ClogTracker;

verus! {

/// The two input modes of the dashboard.
#[derive(Clone, Copy, Debug, PartialEq, Eq, Structural)]
pub enum InputMode {
    Normal,
    Searching,
}

/// One dashboard input event, as the render loop hands it over.
#[derive(Clone, Copy, Debug, PartialEq, Eq, Structural)]
pub enum KeyInput {
    Char(char),
    Up,
    Down,
    Backspace,
    Enter,
    Esc,
    Other,
}

/// The UI-only dashboard state: the search text, the input mode, and the
/// current selection. The selection is a name, never a handle into the
/// store: it is re-resolved against the store on every use, so it may go
/// stale without harm.
pub struct TerminalUI {
    pub search_query: String,
    pub selected_metric: Option<String>,
    pub input_mode: InputMode,
}

/// Mathematical image of the dashboard state.
pub struct UiView {
    pub query: Seq<char>,
    pub selected: Option<Seq<char>>,
    pub mode: InputMode,
}

impl View for TerminalUI {
    type V = UiView;

    open spec fn view(&self) -> UiView {
        UiView {
            query: self.search_query@,
            selected: match self.selected_metric {
                Option::Some(s) => Option::Some(s@),
                Option::None => Option::None,
            },
            mode: self.input_mode,
        }
    }
}

/// The offset of the first occurrence of `x` in `s`, or `s.len()` if `x`
/// does not occur.
pub open spec fn first_index_of(s: Seq<Seq<char>>, x: Seq<char>) -> int
    decreases s.len(),
{
    if s.len() == 0 {
        0
    } else if s[0] == x {
        0
    } else {
        1 + first_index_of(s.drop_first(), x)
    }
}

/// Characterizes [`first_index_of`]: it is in range, it finds `x` exactly
/// when `x` occurs, and nothing before it is `x`.
pub proof fn lemma_first_index_of(s: Seq<Seq<char>>, x: Seq<char>)
    ensures
        0 <= first_index_of(s, x) <= s.len(),
        s.contains(x) <==> first_index_of(s, x) < s.len(),
        first_index_of(s, x) < s.len() ==> s[first_index_of(s, x)] == x,
        forall|i: int| 0 <= i < first_index_of(s, x) ==> s[i] != x,
    decreases s.len(),
{
    if s.len() == 0 {
        assert(!s.contains(x));
    } else if s[0] == x {
        assert(s.contains(x));
    } else {
        let rest = s.drop_first();
        lemma_first_index_of(rest, x);
        assert(s.contains(x) <==> rest.contains(x)) by {
            if s.contains(x) {
                let i = choose|i: int| 0 <= i < s.len() && s[i] == x;
                assert(i != 0);
                assert(rest[i - 1] == x);
            }
            if rest.contains(x) {
                let i = choose|i: int| 0 <= i < rest.len() && rest[i] == x;
                assert(s[i + 1] == x);
            }
        }
        assert forall|i: int| 0 <= i < first_index_of(s, x) implies s[i] != x by {
            if i > 0 {
                assert(rest[i - 1] == s[i]);
            }
        }
    }
}

/// One selection step downwards through the filtered name list `fl`,
/// wrapping from the last name to the first. An empty list leaves the
/// selection alone; no selection starts at the first name; a stale
/// selection (one no longer in the list) recovers to the first name.
pub open spec fn advance_down(fl: Seq<Seq<char>>, sel: Option<Seq<char>>) -> Option<Seq<char>> {
    if fl.len() == 0 {
        sel
    } else {
        match sel {
            Option::None => Option::Some(fl[0]),
            Option::Some(cur) => if fl.contains(cur) {
                Option::Some(fl[(first_index_of(fl, cur) + 1) % (fl.len() as int)])
            } else {
                Option::Some(fl[0])
            },
        }
    }
}

/// One selection step upwards through `fl`, wrapping from the first name to
/// the last. An empty list leaves the selection alone; no selection starts
/// at the last name; a stale selection recovers to the first name.
pub open spec fn advance_up(fl: Seq<Seq<char>>, sel: Option<Seq<char>>) -> Option<Seq<char>> {
    if fl.len() == 0 {
        sel
    } else {
        match sel {
            Option::None => Option::Some(fl.last()),
            Option::Some(cur) => if fl.contains(cur) {
                Option::Some(
                    fl[(if first_index_of(fl, cur) == 0 {
                        fl.len() - 1
                    } else {
                        first_index_of(fl, cur) - 1
                    })],
                )
            } else {
                Option::Some(fl[0])
            },
        }
    }
}

/// Whether `key` ends the render loop in state `u`.
pub open spec fn quits(u: UiView, key: KeyInput) -> bool {
    u.mode == InputMode::Normal && (key == KeyInput::Char('q') || key == KeyInput::Esc)
}

/// The complete transition table of the dashboard: the next state from the
/// current state, the store's name list and one input event.
pub open spec fn ui_step(u: UiView, names: Seq<Seq<char>>, key: KeyInput) -> UiView {
    match u.mode {
        InputMode::Normal => match key {
            KeyInput::Char(c) => if c == '/' {
                UiView { query: u.query, selected: u.selected, mode: InputMode::Searching }
            } else {
                u
            },
            KeyInput::Down => UiView {
                query: u.query,
                selected: advance_down(filter_names(names, u.query), u.selected),
                mode: u.mode,
            },
            KeyInput::Up => UiView {
                query: u.query,
                selected: advance_up(filter_names(names, u.query), u.selected),
                mode: u.mode,
            },
            _ => u,
        },
        InputMode::Searching => match key {
            KeyInput::Char(c) => UiView {
                query: u.query.push(c),
                selected: u.selected,
                mode: u.mode,
            },
            KeyInput::Backspace => UiView {
                query: if u.query.len() == 0 {
                    u.query
                } else {
                    u.query.drop_last()
                },
                selected: u.selected,
                mode: u.mode,
            },
            KeyInput::Enter => UiView { query: u.query, selected: u.selected, mode: InputMode::Normal },
            KeyInput::Esc => UiView { query: u.query, selected: u.selected, mode: InputMode::Normal },
            _ => u,
        },
    }
}

/// Relies on String::push: appends exactly the given character.
#[verifier::external_body]
fn push_char(s: &mut String, c: char)
    ensures
        final(s)@ == old(s)@.push(c),
{
    s.push(c);
}

/// Relies on String::pop: removes the last character, if any.
#[verifier::external_body]
fn pop_char(s: &mut String)
    ensures
        old(s)@.len() == 0 ==> final(s)@ == old(s)@,
        old(s)@.len() > 0 ==> final(s)@ == old(s)@.drop_last(),
{
    s.pop();
}

/// The offset of the first list element equal to `target`, if any.
fn position_of(names: &Vec<String>, target: &String) -> (r: Option<usize>)
    ensures
        match r {
            Some(p) => p < names@.len() && names.deep_view().contains(target@) && p as int
                == first_index_of(names.deep_view(), target@),
            None => !names.deep_view().contains(target@),
        },
{
    let ghost vs = names.deep_view();
    let mut i: usize = 0;
    while i < names.len()
        invariant
            vs == names.deep_view(),
            i <= names@.len(),
            forall|k: int| 0 <= k < i ==> vs[k] != target@,
        decreases names@.len() - i,
    {
        if names[i].eq(target) {
            proof {
                lemma_first_index_of(vs, target@);
                assert(vs[i as int] == names@[i as int]@);
                assert(vs.contains(target@));
                let f = first_index_of(vs, target@);
                if f > i as int {
                    assert(vs[i as int] != target@);
                }
            }
            return Some(i);
        }
        i = i + 1;
    }
    proof {
        if vs.contains(target@) {
            let k = choose|k: int| 0 <= k < vs.len() && vs[k] == target@;
            assert(vs[k] != target@);
        }
    }
    None
}

impl TerminalUI {
    /// A fresh dashboard: empty search, nothing selected, normal mode.
    pub fn new() -> (r: TerminalUI)
        ensures
            r@.query == Seq::<char>::empty(),
            r@.selected is None,
            r@.mode == InputMode::Normal,
    {
        TerminalUI {
            search_query: String::new(),
            selected_metric: None,
            input_mode: InputMode::Normal,
        }
    }

    /// Advances the selection to the next name of the filtered list,
    /// recomputed fresh from the store, wrapping past the end; see
    /// [`advance_down`] for the exact rule. Search text and mode stay put.
    pub fn next_metric(&mut self, store: &ClogTracker)
        ensures
            final(self)@.query == old(self)@.query,
            final(self)@.mode == old(self)@.mode,
            final(self)@.selected == advance_down(
                filter_names(store.names(), old(self)@.query),
                old(self)@.selected,
            ),
    {
        let names = store.filtered_names(&self.search_query);
        let ghost fl = filter_names(store.names(), self.search_query@);
        proof {
            assert forall|k: int| 0 <= k < names@.len() implies names@[k]@ == fl[k] by {
                assert(names.deep_view()[k] == names@[k]@);
            }
        }
        if names.len() == 0 {
            return ;
        }
        let new_sel: String = match &self.selected_metric {
            None => names[0].clone(),
            Some(cur) => match position_of(&names, cur) {
                Some(p) => {
                    let next = (p + 1) % names.len();
                    names[next].clone()
                },
                None => names[0].clone(),
            },
        };
        self.selected_metric = Some(new_sel);
    }

    /// Advances the selection to the previous name of the filtered list,
    /// wrapping past the front; see [`advance_up`] for the exact rule.
    pub fn previous_metric(&mut self, store: &ClogTracker)
        ensures
            final(self)@.query == old(self)@.query,
            final(self)@.mode == old(self)@.mode,
            final(self)@.selected == advance_up(
                filter_names(store.names(), old(self)@.query),
                old(self)@.selected,
            ),
    {
        let names = store.filtered_names(&self.search_query);
        let ghost fl = filter_names(store.names(), self.search_query@);
        proof {
            assert forall|k: int| 0 <= k < names@.len() implies names@[k]@ == fl[k] by {
                assert(names.deep_view()[k] == names@[k]@);
            }
        }
        if names.len() == 0 {
            return ;
        }
        let new_sel: String = match &self.selected_metric {
            None => names[names.len() - 1].clone(),
            Some(cur) => match position_of(&names, cur) {
                Some(p) => {
                    let prev = if p == 0 {
                        names.len() - 1
                    } else {
                        p - 1
                    };
                    names[prev].clone()
                },
                None => names[0].clone(),
            },
        };
        self.selected_metric = Some(new_sel);
    }

    /// Applies one input event: the complete transition table — mode
    /// changes, search editing, navigation — and reports whether the event
    /// quits the dashboard.
    pub fn handle_key(&mut self, store: &ClogTracker, key: KeyInput) -> (quit: bool)
        ensures
            quit == quits(old(self)@, key),
            final(self)@ == ui_step(old(self)@, store.names(), key),
    {
        match self.input_mode {
            InputMode::Normal => match key {
                KeyInput::Char(c) => {
                    if c == 'q' {
                        true
                    } else if c == '/' {
                        self.input_mode = InputMode::Searching;
                        false
                    } else {
                        false
                    }
                },
                KeyInput::Esc => true,
                KeyInput::Down => {
                    self.next_metric(store);
                    false
                },
                KeyInput::Up => {
                    self.previous_metric(store);
                    false
                },
                _ => false,
            },
            InputMode::Searching => match key {
                KeyInput::Char(c) => {
                    push_char(&mut self.search_query, c);
                    false
                },
                KeyInput::Backspace => {
                    pop_char(&mut self.search_query);
                    false
                },
                KeyInput::Enter => {
                    self.input_mode = InputMode::Normal;
                    false
                },
                KeyInput::Esc => {
                    self.input_mode = InputMode::Normal;
                    false
                },
                _ => false,
            },
        }
    }
}

} // verus!
