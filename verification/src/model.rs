//! The ranking session: the list being ranked, the answers given so far,
//! the keyboard, and how each message changes them and what it asks the
//! surrounding program to do.

use vstd::prelude::*;
use std::cmp::Ordering;
use crate::pair::{Pair, Outcome};
use crate::ranking::{
    SortState, compute_ordering, is_open_question, known_of, open_pairs, lemma_open_pairs_finite,
    lemma_recording_closes_pair, agrees_where_recorded,
};
use crate::order::{is_total_preorder, sorted_by};

verus! {

/// The list loaded when none is named.
pub const DEFAULT_LIST: &'static str = "colors";

/// Which of the answer keys are held down.
#[derive(Clone, Copy, Debug, PartialEq, Eq, Structural)]
pub struct KeyboardState {
    pub left: bool,
    pub right: bool,
    pub up: bool,
}

impl Default for KeyboardState {
    fn default() -> (r: KeyboardState)
        ensures
            r == (KeyboardState { left: false, right: false, up: false }),
    {
        KeyboardState { left: false, right: false, up: false }
    }
}

/// What can happen to the session.
#[derive(Debug)]
pub enum Msg {
    /// Something to write to the console.
    Debug(String),
    /// The list-name input now holds this text.
    ListInputValueChanged(String),
    /// A key (by its name) went down in the list-name input.
    ListInputKeyDown(String),
    /// Load the list of this name.
    FetchList(String),
    /// A list was loaded: rank these items from scratch.
    NewList(Vec<String>),
    /// There is no list of this name.
    NoSuchList(String),
    /// The user answered how the first item of the pair compares to the
    /// second.
    Rank(Pair, Outcome),
    /// A key (by its name) went down on the page; `ctrl` tells whether the
    /// control key was held.
    KeyDown { key: String, ctrl: bool },
    /// A key (by its name) came up on the page.
    KeyUp(String),
}

/// What the surrounding program is asked to do after a message.
#[derive(Debug)]
pub enum Effect {
    /// Write this text to the console.
    Log(String),
    /// Show this text in an alert box.
    Alert(String),
    /// Deliver this message to the session.
    Send(Msg),
    /// Fetch the list at this address and deliver what came back as a
    /// message (see `fetch_reply`).
    Fetch(String),
}

/// The text written to the console when a list is fetched.
pub open spec fn fetch_log_text(name: Seq<char>) -> Seq<char> {
    "fetching new list: "@ + name
}

/// The address from which the list of this name is fetched.
pub open spec fn list_url(name: Seq<char>) -> Seq<char> {
    "https://pairwise-ranked.firebaseio.com/lists/"@ + name + ".json"@
}

/// The text shown when there is no list of this name.
pub open spec fn missing_list_text(name: Seq<char>) -> Seq<char> {
    "couldn't find the list '"@ + name + "'"@
}

/// The records after an undo: the last one goes, if there is one.
pub open spec fn undo(ords: Seq<(Pair, Outcome)>) -> Seq<(Pair, Outcome)> {
    if ords.len() > 0 {
        ords.drop_last()
    } else {
        ords
    }
}

/// The answer to send for the question that is open, if one is.
pub open spec fn answer_effects(state: SortState, o: Outcome) -> Seq<Effect> {
    match state.next_missing_ord {
        Some(p) => seq![Effect::Send(Msg::Rank(p, o))],
        None => seq![],
    }
}

/// The message that a click on an answer button sends about the pair
/// asked: the button for the first item says it ranks above the second
/// (`Greater`), the button for the second says it ranks below (`Less`).
pub fn button_answer(pair: Pair, first: bool) -> (m: Msg)
    ensures
        m == Msg::Rank(pair, if first { Outcome::Greater } else { Outcome::Less }),
{
    if first {
        Msg::Rank(pair, Outcome::Greater)
    } else {
        Msg::Rank(pair, Outcome::Less)
    }
}

/// The class of an answer button: pressed or idle.
pub fn button_class(pressed: bool) -> (r: &'static str)
    ensures
        r@ == (if pressed { "pressed"@ } else { "idle "@ }),
{
    if pressed {
        "pressed"
    } else {
        "idle "
    }
}

/// The message that a finished fetch of a list turns into: the status
/// text when the request failed, the loaded items when the body held a
/// list, and the body's error otherwise.
pub fn fetch_reply(success: bool, status_text: String, body: Result<Vec<String>, String>) -> (m: Msg)
    ensures
        !success ==> m == Msg::Debug(status_text),
        success ==> m == (match body {
            Ok(items) => Msg::NewList(items),
            Err(e) => Msg::Debug(e),
        }),
{
    if !success {
        return Msg::Debug(status_text);
    }
    match body {
        Ok(items) => Msg::NewList(items),
        Err(e) => Msg::Debug(e),
    }
}

/// The name of the list to load first, from the page address's fragment:
/// the fragment without its leading `#`, or the default list when that is
/// empty.
pub open spec fn list_name_of(hash: Seq<char>) -> Seq<char> {
    let rest = if hash.len() > 0 && hash[0] == '#' { hash.drop_first() } else { hash };
    if rest.len() == 0 { DEFAULT_LIST@ } else { rest }
}

/// The name of the list to load first (see `list_name_of`).
pub fn initial_list_name(hash: &str) -> (name: String)
    ensures
        name@ == list_name_of(hash@),
        hash@.len() > 1 && hash@[0] == '#' ==> name@ == hash@.drop_first(),
        hash@.len() > 0 && hash@[0] != '#' ==> name@ == hash@,
        hash@.len() == 0 || hash@ == seq!['#'] ==> name@ == "colors"@,
{
    proof {
        reveal_strlit("colors");
    }
    let n: usize = hash.unicode_len();
    let rest: &str = if n > 0 && hash.get_char(0) == '#' {
        hash.substring_char(1, n)
    } else {
        hash
    };
    assert(hash@.len() > 0 && hash@[0] == '#' ==> rest@ =~= hash@.drop_first());
    if rest.unicode_len() == 0 {
        String::from_str(DEFAULT_LIST)
    } else {
        String::from_str(rest)
    }
}

/// Whether `a` holds the text `b`.
fn same_text(a: &String, b: &str) -> (r: bool)
    ensures
        r == (a@ == b@),
{
    let t = String::from_str(b);
    *a == t
}

/// The ranking session.
#[derive(Debug)]
pub struct Model {
    list_input_value: String,
    items: Vec<String>,
    ords: Vec<(Pair, Outcome)>,
    sort_state: SortState,
    keyboard_state: KeyboardState,
}

impl Model {
    /// The text in the list-name input.
    pub closed spec fn input_text(&self) -> Seq<char> {
        self.list_input_value@
    }

    /// The items being ranked.
    pub closed spec fn item_list(&self) -> Seq<String> {
        self.items@
    }

    /// The answers given so far, oldest first.
    pub closed spec fn records(&self) -> Seq<(Pair, Outcome)> {
        self.ords@
    }

    /// The ordering computed from the answers.
    pub closed spec fn state(&self) -> SortState {
        self.sort_state
    }

    /// Which answer keys are held down.
    pub closed spec fn keys(&self) -> KeyboardState {
        self.keyboard_state
    }

    /// The ordering is the one computed for the current items and answers.
    pub open spec fn wf(&self) -> bool {
        &&& self.state().is_computed_for(self.item_list().len(), self.records())
        &&& self.state().describes(self.item_list().len(), self.records())
    }

    /// The ranking shown: the order, the count of unanswered comparisons
    /// and the next question.
    pub open spec fn shown(&self) -> (Seq<usize>, usize, Option<Pair>) {
        (self.state().current_order@, self.state().num_missing_ords, self.state().next_missing_ord)
    }

    /// `new` differs from this session at most in its keys, which are `keys`.
    pub open spec fn only_keys_change(self, new: Model, keys: KeyboardState) -> bool {
        &&& new.input_text() == self.input_text()
        &&& new.item_list() == self.item_list()
        &&& new.records() == self.records()
        &&& new.state() == self.state()
        &&& new.keys() == keys
    }

    /// `new` is this session with nothing changed.
    pub open spec fn unchanged_in(self, new: Model) -> bool {
        self.only_keys_change(new, self.keys())
    }

    /// `new` is this session with its answers replaced by `records` (and
    /// its ordering computed again).
    pub open spec fn only_records_change(self, new: Model, records: Seq<(Pair, Outcome)>) -> bool {
        &&& new.input_text() == self.input_text()
        &&& new.item_list() == self.item_list()
        &&& new.records() == records
        &&& new.keys() == self.keys()
    }

    /// What `msg` does to this session: the session becomes `new` and the
    /// surrounding program is asked to do `effects`.
    pub open spec fn follows(self, msg: Msg, new: Model, effects: Seq<Effect>) -> bool {
        match msg {
            Msg::Debug(text) => self.unchanged_in(new) && effects == seq![Effect::Log(text)],
            Msg::NoSuchList(name) => {
                &&& self.unchanged_in(new)
                &&& effects.len() == 1
                &&& effects[0] matches Effect::Alert(t) && t@ == missing_list_text(name@)
            },
            Msg::ListInputValueChanged(text) => {
                &&& new.input_text() == text@
                &&& new.item_list() == self.item_list()
                &&& new.records() == self.records()
                &&& new.state() == self.state()
                &&& new.keys() == self.keys()
                &&& effects.len() == 0
            },
            Msg::ListInputKeyDown(key) => {
                &&& self.unchanged_in(new)
                &&& if key@ == "Enter"@ {
                    &&& effects.len() == 1
                    &&& effects[0] matches Effect::Send(Msg::FetchList(name)) && name@ == self.input_text()
                } else {
                    effects.len() == 0
                }
            },
            Msg::FetchList(name) => {
                &&& self.unchanged_in(new)
                &&& effects.len() == 2
                &&& effects[0] matches Effect::Log(t) && t@ == fetch_log_text(name@)
                &&& effects[1] matches Effect::Fetch(u) && u@ == list_url(name@)
            },
            Msg::NewList(items) => {
                &&& new.input_text() == Seq::<char>::empty()
                &&& new.item_list() == items@
                &&& new.records() == Seq::<(Pair, Outcome)>::empty()
                &&& new.keys() == self.keys()
                &&& effects.len() == 0
            },
            Msg::Rank(p, o) => self.only_records_change(new, self.records().push((p, o))) && effects.len() == 0,
            Msg::KeyDown { key, ctrl } => {
                &&& effects.len() == 0
                &&& if key@ == "ArrowLeft"@ {
                    self.only_keys_change(new, KeyboardState { left: true, ..self.keys() })
                } else if key@ == "ArrowRight"@ {
                    self.only_keys_change(new, KeyboardState { right: true, ..self.keys() })
                } else if key@ == "ArrowUp"@ {
                    self.only_keys_change(new, KeyboardState { up: true, ..self.keys() })
                } else if key@ == "z"@ && ctrl {
                    self.only_records_change(new, undo(self.records()))
                } else {
                    self.unchanged_in(new)
                }
            },
            Msg::KeyUp(key) => {
                if key@ == "ArrowLeft"@ {
                    &&& self.only_keys_change(new, KeyboardState { left: false, ..self.keys() })
                    &&& effects == answer_effects(self.state(), Outcome::Greater)
                } else if key@ == "ArrowRight"@ {
                    &&& self.only_keys_change(new, KeyboardState { right: false, ..self.keys() })
                    &&& effects == answer_effects(self.state(), Outcome::Less)
                } else if key@ == "ArrowUp"@ {
                    &&& self.only_keys_change(new, KeyboardState { up: false, ..self.keys() })
                    &&& effects == answer_effects(self.state(), Outcome::Equal)
                } else {
                    self.unchanged_in(new) && effects.len() == 0
                }
            },
        }
    }

    /// Handles one message: updates the session and returns what the
    /// surrounding program should do. (The page is redrawn after every
    /// message.)
    pub fn update(&mut self, msg: Msg) -> (effects: Vec<Effect>)
        requires
            old(self).wf(),
        ensures
            final(self).wf(),
            old(self).follows(msg, *final(self), effects@),
            msg matches Msg::FetchList(name) ==> {
                &&& effects@.len() == 2
                &&& effects@[0] matches Effect::Log(t) && t@ == "fetching new list: "@ + name@
                &&& effects@[1] matches Effect::Fetch(u)
                    && u@ == "https://pairwise-ranked.firebaseio.com/lists/"@ + name@ + ".json"@
                    && u@.len() == 45 + name@.len() + 5
                    && u@.subrange(45, u@.len() - 5) == name@
            },
            msg matches Msg::KeyUp(key) ==> (old(self).state().next_missing_ord matches Some(p) ==> {
                &&& key@ == "ArrowLeft"@ ==> effects@ == seq![Effect::Send(Msg::Rank(p, Outcome::Greater))]
                &&& key@ == "ArrowRight"@ ==> effects@ == seq![Effect::Send(Msg::Rank(p, Outcome::Less))]
                &&& key@ == "ArrowUp"@ ==> effects@ == seq![Effect::Send(Msg::Rank(p, Outcome::Equal))]
            }),
    {
        proof {
            reveal_strlit("ArrowLeft");
            reveal_strlit("ArrowRight");
            reveal_strlit("ArrowUp");
            reveal_strlit("https://pairwise-ranked.firebaseio.com/lists/");
            reveal_strlit(".json");
            assert("ArrowLeft"@.len() == 9);
            assert("ArrowRight"@.len() == 10);
            assert("ArrowUp"@.len() == 7);
            assert("https://pairwise-ranked.firebaseio.com/lists/"@.len() == 45);
            assert(".json"@.len() == 5);
        }
        let mut effects: Vec<Effect> = Vec::new();
        match msg {
            Msg::Debug(text) => {
                effects.push(Effect::Log(text));
            },
            Msg::NoSuchList(name) => {
                let mut t = String::from_str("couldn't find the list '");
                t.append(name.as_str());
                t.append("'");
                effects.push(Effect::Alert(t));
            },
            Msg::ListInputValueChanged(text) => {
                self.list_input_value = text;
            },
            Msg::ListInputKeyDown(key) => {
                if same_text(&key, "Enter") {
                    effects.push(Effect::Send(Msg::FetchList(self.list_input_value.clone())));
                }
            },
            Msg::FetchList(name) => {
                let mut t = String::from_str("fetching new list: ");
                t.append(name.as_str());
                effects.push(Effect::Log(t));
                let mut u = String::from_str("https://pairwise-ranked.firebaseio.com/lists/");
                u.append(name.as_str());
                u.append(".json");
                effects.push(Effect::Fetch(u));
            },
            Msg::NewList(items) => {
                self.list_input_value = String::new();
                self.items = items;
                self.ords = Vec::new();
                self.recompute();
            },
            Msg::Rank(p, o) => {
                self.ords.push((p, o));
                self.recompute();
            },
            Msg::KeyDown { key, ctrl } => {
                if same_text(&key, "ArrowLeft") {
                    self.keyboard_state.left = true;
                } else if same_text(&key, "ArrowRight") {
                    self.keyboard_state.right = true;
                } else if same_text(&key, "ArrowUp") {
                    self.keyboard_state.up = true;
                } else if same_text(&key, "z") && ctrl {
                    self.ords.pop();
                    self.recompute();
                }
            },
            Msg::KeyUp(key) => {
                let answer = if same_text(&key, "ArrowLeft") {
                    self.keyboard_state.left = false;
                    Some(Outcome::Greater)
                } else if same_text(&key, "ArrowRight") {
                    self.keyboard_state.right = false;
                    Some(Outcome::Less)
                } else if same_text(&key, "ArrowUp") {
                    self.keyboard_state.up = false;
                    Some(Outcome::Equal)
                } else {
                    None
                };
                if let Some(o) = answer {
                    if let Some(p) = self.sort_state.next_missing_ord {
                        effects.push(Effect::Send(Msg::Rank(p, o)));
                    }
                }
            },
        }
        effects
    }

    /// The text in the list-name input.
    pub fn list_input_value(&self) -> (r: &String)
        ensures
            r@ == self.input_text(),
    {
        &self.list_input_value
    }

    /// Which answer keys are held down.
    pub fn keyboard_state(&self) -> (r: KeyboardState)
        ensures
            r == self.keys(),
    {
        self.keyboard_state
    }

    /// How many answers have been given, and how many comparisons still
    /// found no answer.
    pub fn progress(&self) -> (r: (usize, usize))
        ensures
            r.0 == self.records().len(),
            r.1 == self.state().num_missing_ords,
    {
        (self.ords.len(), self.sort_state.num_missing_ords)
    }

    /// The question to put, if one is open: the pair, and the first and
    /// second item's names.
    pub fn question(&self) -> (r: Option<(Pair, String, String)>)
        requires
            self.wf(),
        ensures
            match self.state().next_missing_ord {
                None => r is None,
                Some(p) => r matches Some((q, a, b)) && q == p
                    && a == self.item_list()[p.0 as int] && b == self.item_list()[p.1 as int],
            },
    {
        match self.sort_state.next_missing_ord {
            None => None,
            Some(p) => {
                let a = self.items[p.0].clone();
                let b = self.items[p.1].clone();
                Some((p, a, b))
            },
        }
    }

    /// Whether the button for "the first item is better" shows as pressed:
    /// its key, or the key for "equal", is down.
    pub fn left_pressed(&self) -> (r: bool)
        ensures
            r == (self.keys().left || self.keys().up),
    {
        self.keyboard_state.left || self.keyboard_state.up
    }

    /// Whether the button for "the second item is better" shows as pressed:
    /// its key, or the key for "equal", is down.
    pub fn right_pressed(&self) -> (r: bool)
        ensures
            r == (self.keys().right || self.keys().up),
    {
        self.keyboard_state.right || self.keyboard_state.up
    }

    /// The items from the highest ranked to the lowest.
    pub fn ranked_items(&self) -> (r: Vec<String>)
        requires
            self.wf(),
        ensures
            r@.len() == self.item_list().len(),
            forall|k: int| 0 <= k < r@.len() ==> #[trigger] r@[k]
                == self.item_list()[self.state().current_order@[r@.len() - 1 - k] as int],
    {
        let order = &self.sort_state.current_order;
        let n: usize = order.len();
        let mut r: Vec<String> = Vec::new();
        let mut k: usize = 0;
        while k < n
            invariant
                k <= n,
                n == order@.len(),
                n == self.items@.len(),
                order == &self.sort_state.current_order,
                self.wf(),
                r@.len() == k,
                forall|j: int| 0 <= j < k ==> #[trigger] r@[j] == self.items@[order@[n - 1 - j] as int],
            decreases n - k,
        {
            let idx: usize = order[n - 1 - k];
            assert(idx < n);
            r.push(self.items[idx].clone());
            k = k + 1;
        }
        r
    }

    fn recompute(&mut self)
        ensures
            final(self).wf(),
            final(self).input_text() == old(self).input_text(),
            final(self).item_list() == old(self).item_list(),
            final(self).records() == old(self).records(),
            final(self).keys() == old(self).keys(),
    {
        self.sort_state = compute_ordering(self.items.as_slice(), self.ords.as_slice());
    }

    /// A session that shows a placeholder item until a list is loaded, with
    /// the default list's name in the input.
    pub fn new() -> (m: Model)
        ensures
            m.wf(),
            m.input_text() == DEFAULT_LIST@,
            m.item_list().len() == 1,
            m.item_list()[0]@ == "loading..."@,
            m.records() == Seq::<(Pair, Outcome)>::empty(),
            m.keys() == (KeyboardState { left: false, right: false, up: false }),
    {
        let items: Vec<String> = vec![String::from_str("loading...")];
        let ords: Vec<(Pair, Outcome)> = Vec::new();
        let sort_state = compute_ordering(items.as_slice(), ords.as_slice());
        Model {
            list_input_value: String::from_str(DEFAULT_LIST),
            items,
            ords,
            sort_state,
            keyboard_state: KeyboardState::default(),
        }
    }
}


/// Answering the question that is open closes it: after `Rank(p, o)` for
/// the open pair `p`, neither order of that pair is the next question, and
/// the (finitely many) open pairs lose both orders of `p` and nothing else.
/// So answering the open question again and again ends with no question.
pub proof fn lemma_answer_closes_question(m: Model, p: Pair, o: Outcome, new: Model, effects: Seq<Effect>)
    requires
        m.wf(),
        new.wf(),
        m.state().next_missing_ord == Some(p),
        m.follows(Msg::Rank(p, o), new, effects),
    ensures
        new.state().next_missing_ord != Some(p),
        new.state().next_missing_ord != Some(Pair(p.1, p.0)),
        open_pairs(new.item_list().len(), new.records())
            == open_pairs(m.item_list().len(), m.records()).remove((p.0, p.1)).remove((p.1, p.0)),
        open_pairs(new.item_list().len(), new.records()).len()
            < open_pairs(m.item_list().len(), m.records()).len(),
{
    let n = m.item_list().len();
    assert(is_open_question(known_of(m.records()), n, p));
    crate::ranking::lemma_recorded_pair_is_known(m.records(), p, o);
    lemma_recording_closes_pair(n, m.records(), p, o);
    assert(m.items.len() == n);
    lemma_open_pairs_finite(n, m.records());
    let before = open_pairs(n, m.records());
    assert(before.contains((p.0, p.1)));
    assert(before.remove((p.0, p.1)).len() < before.len());
}

/// Control-Z takes back the last answer: answering a question and then
/// pressing Control-Z leaves the items, the answers, the input and the
/// keys as they were.
pub proof fn lemma_undo_takes_back_answer(
    m: Model,
    p: Pair,
    o: Outcome,
    mid: Model,
    e1: Seq<Effect>,
    key: String,
    new: Model,
    e2: Seq<Effect>,
)
    requires
        m.follows(Msg::Rank(p, o), mid, e1),
        key@ == "z"@,
        mid.follows(Msg::KeyDown { key: key, ctrl: true }, new, e2),
    ensures
        new.records() == m.records(),
        new.item_list() == m.item_list(),
        new.input_text() == m.input_text(),
        new.keys() == m.keys(),
        m.wf() && new.wf() ==> new.shown() == m.shown(),
        e1.len() == 0,
        e2.len() == 0,
{
    reveal_strlit("z");
    reveal_strlit("ArrowLeft");
    reveal_strlit("ArrowRight");
    reveal_strlit("ArrowUp");
    assert("z"@.len() == 1);
    assert("ArrowLeft"@.len() == 9);
    assert("ArrowRight"@.len() == 10);
    assert("ArrowUp"@.len() == 7);
    assert(m.records().push((p, o)).drop_last() =~= m.records());
}

/// The ranking shown depends only on how many items there are and on what
/// the recorded answers say, not on how the answers were given.
pub proof fn lemma_ranking_depends_only_on_answers(m1: Model, m2: Model)
    requires
        m1.wf(),
        m2.wf(),
        m1.item_list().len() == m2.item_list().len(),
        known_of(m1.records()) == known_of(m2.records()),
    ensures
        m1.shown() == m2.shown(),
{
}

/// Giving again an answer that is already recorded for both orders of the
/// pair changes nothing that is shown.
pub proof fn lemma_repeated_answer_changes_nothing(m: Model, p: Pair, o: Outcome, new: Model, effects: Seq<Effect>)
    requires
        m.wf(),
        new.wf(),
        m.follows(Msg::Rank(p, o), new, effects),
        known_of(m.records()).contains_key((p.0, p.1)),
        known_of(m.records())[(p.0, p.1)] == o,
        known_of(m.records()).contains_key((p.1, p.0)),
        known_of(m.records())[(p.1, p.0)] == o.flipped(),
    ensures
        new.shown() == m.shown(),
        effects.len() == 0,
{
    let r = m.records();
    assert(r.push((p, o)).drop_last() =~= r);
    assert(known_of(r.push((p, o))) =~= known_of(r));
}

/// When the session asks no question, the ranking it shows is sorted by
/// every total preorder that agrees with the answers given so far.
pub proof fn lemma_no_question_ranking_is_sorted(m: Model, ord: spec_fn(usize, usize) -> Ordering)
    requires
        m.wf(),
        m.state().next_missing_ord is None,
        is_total_preorder(ord),
        agrees_where_recorded(known_of(m.records()), m.item_list().len(), ord),
    ensures
        sorted_by(m.state().current_order@, ord),
{
    crate::ranking::lemma_no_open_question_means_sorted(m.state(), m.item_list().len(), m.records(), ord);
}

/// Releasing an answer key while a question `p` is open sends exactly that
/// question, as asked, with the key's answer: left for `Greater` (the first
/// item is better), right for `Less`, up for `Equal`.
pub proof fn lemma_key_release_sends_asked_pair(m: Model, key: String, p: Pair, new: Model, effects: Seq<Effect>)
    requires
        m.state().next_missing_ord == Some(p),
        m.follows(Msg::KeyUp(key), new, effects),
    ensures
        key@ == "ArrowLeft"@ ==> effects == seq![Effect::Send(Msg::Rank(p, Outcome::Greater))],
        key@ == "ArrowRight"@ ==> effects == seq![Effect::Send(Msg::Rank(p, Outcome::Less))],
        key@ == "ArrowUp"@ ==> effects == seq![Effect::Send(Msg::Rank(p, Outcome::Equal))],
{
    reveal_strlit("ArrowLeft");
    reveal_strlit("ArrowRight");
    reveal_strlit("ArrowUp");
    assert("ArrowLeft"@.len() == 9);
    assert("ArrowRight"@.len() == 10);
    assert("ArrowUp"@.len() == 7);
}

/// Delivering `Rank(p, o)` for two different items records `o` for the pair
/// as given and the flipped answer for its reverse.
pub proof fn lemma_rank_records_answer(m: Model, p: Pair, o: Outcome, new: Model, effects: Seq<Effect>)
    requires
        p.0 != p.1,
        m.follows(Msg::Rank(p, o), new, effects),
    ensures
        known_of(new.records()).contains_key((p.0, p.1)),
        known_of(new.records())[(p.0, p.1)] == o,
        known_of(new.records()).contains_key((p.1, p.0)),
        known_of(new.records())[(p.1, p.0)] == o.flipped(),
{
    crate::ranking::lemma_recorded_pair_is_known(m.records(), p, o);
}

/// Releasing the left arrow while `p` is open, and delivering what that
/// sends, records that the first item of `p` is better than the second.
pub proof fn lemma_left_arrow_records_first_better(
    m: Model,
    key: String,
    p: Pair,
    mid: Model,
    e1: Seq<Effect>,
    new: Model,
    e2: Seq<Effect>,
)
    requires
        m.wf(),
        m.state().next_missing_ord == Some(p),
        key@ == "ArrowLeft"@,
        m.follows(Msg::KeyUp(key), mid, e1),
        mid.follows(Msg::Rank(p, Outcome::Greater), new, e2),
    ensures
        e1 == seq![Effect::Send(Msg::Rank(p, Outcome::Greater))],
        known_of(new.records())[(p.0, p.1)] == Outcome::Greater,
        known_of(new.records())[(p.1, p.0)] == Outcome::Less,
{
    lemma_key_release_sends_asked_pair(m, key, p, mid, e1);
    assert(is_open_question(known_of(m.records()), m.item_list().len(), p));
    lemma_rank_records_answer(mid, p, Outcome::Greater, new, e2);
}

/// Fetching a list asks for the address made of the fixed prefix, the whole
/// name, and `.json`, and logs the whole name.
pub proof fn lemma_fetch_uses_whole_name(m: Model, name: String, new: Model, effects: Seq<Effect>)
    requires
        m.follows(Msg::FetchList(name), new, effects),
    ensures
        effects.len() == 2,
        effects[0] matches Effect::Log(t) && t@ == "fetching new list: "@ + name@,
        effects[1] matches Effect::Fetch(u) && u@ == "https://pairwise-ranked.firebaseio.com/lists/"@ + name@ + ".json"@,
        effects[1] matches Effect::Fetch(u) && u@.len() == 45 + name@.len() + 5 && u@.subrange(45, u@.len() - 5) == name@,
{
    reveal_strlit("https://pairwise-ranked.firebaseio.com/lists/");
    reveal_strlit(".json");
    assert("https://pairwise-ranked.firebaseio.com/lists/"@.len() == 45);
    assert(".json"@.len() == 5);
    if let Effect::Fetch(u) = effects[1] {
        assert(u@.subrange(45, u@.len() - 5) =~= name@);
    }
}

} // verus!
