use pairwise_ranked::model::{
    button_class, fetch_reply, initial_list_name, Effect, KeyboardState, Model, Msg, DEFAULT_LIST,
};
use pairwise_ranked::pair::{Outcome, Pair};

fn loaded(items: &[&str]) -> Model {
    let mut m = Model::new();
    let effects = m.update(Msg::NewList(items.iter().map(|s| s.to_string()).collect()));
    assert!(effects.is_empty());
    m
}

#[test]
fn a_new_session_waits_for_its_list() {
    let m = Model::new();
    assert_eq!(m.list_input_value(), DEFAULT_LIST);
    assert_eq!(m.ranked_items(), vec!["loading...".to_string()]);
    assert_eq!(m.progress(), (0, 0));
    assert!(m.question().is_none());
    assert_eq!(m.keyboard_state(), KeyboardState::default());
}

#[test]
fn debug_and_missing_list_messages() {
    let mut m = Model::new();
    let e = m.update(Msg::Debug("hello".to_string()));
    assert!(matches!(e.as_slice(), [Effect::Log(t)] if t == "hello"));
    let e = m.update(Msg::NoSuchList("fruit".to_string()));
    assert!(matches!(e.as_slice(), [Effect::Alert(t)] if t == "couldn't find the list 'fruit'"));
}

#[test]
fn fetching_a_list_logs_and_fetches() {
    let mut m = Model::new();
    let e = m.update(Msg::FetchList("fruit".to_string()));
    assert_eq!(e.len(), 2);
    assert!(matches!(&e[0], Effect::Log(t) if t == "fetching new list: fruit"));
    assert!(matches!(&e[1], Effect::Fetch(u) if u == "https://pairwise-ranked.firebaseio.com/lists/fruit.json"));
}

#[test]
fn enter_in_the_input_asks_for_the_typed_list() {
    let mut m = Model::new();
    assert!(m.update(Msg::ListInputValueChanged("birds".to_string())).is_empty());
    assert_eq!(m.list_input_value(), "birds");
    assert!(m.update(Msg::ListInputKeyDown("a".to_string())).is_empty());
    let e = m.update(Msg::ListInputKeyDown("Enter".to_string()));
    assert!(matches!(e.as_slice(), [Effect::Send(Msg::FetchList(n))] if n == "birds"));
}

#[test]
fn a_new_list_starts_from_scratch() {
    let mut m = loaded(&["a", "b"]);
    let p = m.question().unwrap().0;
    m.update(Msg::Rank(p, Outcome::Greater));
    assert_eq!(m.progress().0, 1);
    m.update(Msg::ListInputValueChanged("other".to_string()));
    m.update(Msg::NewList(vec!["x".to_string(), "y".to_string(), "z".to_string()]));
    assert_eq!(m.list_input_value(), "");
    assert_eq!(m.progress().0, 0);
    let mut ranked = m.ranked_items();
    ranked.sort();
    assert_eq!(ranked, vec!["x", "y", "z"]);
}

#[test]
fn keys_press_buttons_and_answer_on_release() {
    let mut m = loaded(&["red", "blue"]);
    let (p, a, b) = m.question().unwrap();
    assert_eq!(a, ["red", "blue"][p.0]);
    assert_eq!(b, ["red", "blue"][p.1]);
    assert!(!m.left_pressed() && !m.right_pressed());
    let down = |k: &str| Msg::KeyDown { key: k.to_string(), ctrl: false };
    assert!(m.update(down("ArrowLeft")).is_empty());
    assert!(m.left_pressed() && !m.right_pressed());
    let e = m.update(Msg::KeyUp("ArrowLeft".to_string()));
    assert!(!m.left_pressed());
    assert!(matches!(e.as_slice(), [Effect::Send(Msg::Rank(q, Outcome::Greater))] if *q == p));
    m.update(down("ArrowUp"));
    assert!(m.left_pressed() && m.right_pressed());
    let e = m.update(Msg::KeyUp("ArrowUp".to_string()));
    assert!(matches!(e.as_slice(), [Effect::Send(Msg::Rank(q, Outcome::Equal))] if *q == p));
    m.update(down("ArrowRight"));
    assert!(m.right_pressed() && !m.left_pressed());
    let e = m.update(Msg::KeyUp("ArrowRight".to_string()));
    assert!(matches!(e.as_slice(), [Effect::Send(Msg::Rank(q, Outcome::Less))] if *q == p));
    assert!(m.update(Msg::KeyUp("Escape".to_string())).is_empty());
    assert_eq!(m.progress().0, 0);
}

#[test]
fn answering_closes_the_question_and_ranks_the_items() {
    let mut m = loaded(&["red", "blue"]);
    let (p, _, _) = m.question().unwrap();
    // The first of the pair is better.
    let e = m.update(Msg::Rank(p, Outcome::Greater));
    assert!(e.is_empty());
    assert!(m.question().is_none());
    assert_eq!(m.progress(), (1, 0));
    let names = ["red", "blue"];
    assert_eq!(m.ranked_items(), vec![names[p.0], names[p.1]]);
}

#[test]
fn control_z_takes_back_the_last_answer() {
    let mut m = loaded(&["a", "b", "c"]);
    let (p, _, _) = m.question().unwrap();
    m.update(Msg::Rank(p, Outcome::Less));
    assert_eq!(m.progress().0, 1);
    // "z" without control does nothing.
    m.update(Msg::KeyDown { key: "z".to_string(), ctrl: false });
    assert_eq!(m.progress().0, 1);
    m.update(Msg::KeyDown { key: "z".to_string(), ctrl: true });
    assert_eq!(m.progress().0, 0);
    assert_eq!(m.question().unwrap().0, p);
    // Undo with nothing to take back changes nothing.
    m.update(Msg::KeyDown { key: "z".to_string(), ctrl: true });
    assert_eq!(m.progress().0, 0);
}

#[test]
fn a_full_session_ranks_every_item() {
    let worth = [3, 1, 4, 0, 2];
    let names = ["w3", "w1", "w4", "w0", "w2"];
    let mut m = loaded(&names);
    let mut answered = 0;
    while let Some((p, _, _)) = m.question() {
        let o = Outcome::from_ordering(worth[p.0].cmp(&worth[p.1]));
        m.update(Msg::Rank(Pair(p.0, p.1), o));
        answered += 1;
        assert!(answered <= 10);
    }
    assert_eq!(m.ranked_items(), vec!["w4", "w3", "w2", "w1", "w0"]);
    assert_eq!(m.progress(), (answered, 0));
}

#[test]
fn list_name_from_the_address() {
    assert_eq!(initial_list_name("#fruit"), "fruit");
    assert_eq!(initial_list_name("fruit"), "fruit");
    assert_eq!(initial_list_name("#"), "colors");
    assert_eq!(initial_list_name(""), "colors");
    assert_eq!(initial_list_name("##x"), "#x");
}

#[test]
fn fetch_replies_become_messages() {
    let ok = fetch_reply(true, "200".to_string(), Ok(vec!["a".to_string()]));
    assert!(matches!(ok, Msg::NewList(v) if v == vec!["a".to_string()]));
    let bad = fetch_reply(false, "404".to_string(), Ok(vec![]));
    assert!(matches!(bad, Msg::Debug(t) if t == "404"));
    let err = fetch_reply(true, "200".to_string(), Err("not a list".to_string()));
    assert!(matches!(err, Msg::Debug(t) if t == "not a list"));
}

#[test]
fn button_classes() {
    assert_eq!(button_class(true), "pressed");
    assert_eq!(button_class(false), "idle ");
}

#[test]
fn undo_restores_the_shown_ranking() {
    let mut m = loaded(&["a", "b", "c", "d"]);
    let before_items = m.ranked_items();
    let before_question = m.question();
    let before_progress = m.progress();
    let (p, _, _) = m.question().unwrap();
    m.update(Msg::Rank(p, Outcome::Greater));
    m.update(Msg::KeyDown { key: "z".to_string(), ctrl: true });
    assert_eq!(m.ranked_items(), before_items);
    assert_eq!(m.question(), before_question);
    assert_eq!(m.progress(), before_progress);
}

#[test]
fn repeating_an_answer_changes_nothing_shown() {
    let mut m = loaded(&["a", "b", "c"]);
    let (p, _, _) = m.question().unwrap();
    m.update(Msg::Rank(p, Outcome::Less));
    let items = m.ranked_items();
    let question = m.question();
    let missing = m.progress().1;
    m.update(Msg::Rank(p, Outcome::Less));
    assert_eq!(m.ranked_items(), items);
    assert_eq!(m.question(), question);
    assert_eq!(m.progress(), (2, missing));
    // The same answer, given for the reversed pair.
    m.update(Msg::Rank(p.reverse(), Outcome::Greater));
    assert_eq!(m.ranked_items(), items);
    assert_eq!(m.question(), question);
}

#[test]
fn the_order_of_the_answers_does_not_matter() {
    let answers = [
        (Pair(0, 1), Outcome::Less),
        (Pair(2, 1), Outcome::Greater),
        (Pair(0, 2), Outcome::Equal),
    ];
    let mut m1 = loaded(&["a", "b", "c"]);
    let mut m2 = loaded(&["a", "b", "c"]);
    for a in answers.iter() {
        m1.update(Msg::Rank(a.0, a.1));
    }
    for a in answers.iter().rev() {
        m2.update(Msg::Rank(a.0, a.1));
    }
    assert_eq!(m1.ranked_items(), m2.ranked_items());
    assert_eq!(m1.question(), m2.question());
    assert_eq!(m1.progress(), m2.progress());
}

#[test]
fn answer_buttons_send_the_ranking_of_the_first_item() {
    let p = Pair(3, 1);
    assert!(matches!(pairwise_ranked::model::button_answer(p, true), Msg::Rank(q, Outcome::Greater) if q == p));
    assert!(matches!(pairwise_ranked::model::button_answer(p, false), Msg::Rank(q, Outcome::Less) if q == p));
}
