use thinkmate::history::{history_or_empty, Party, SavedChat, DESCRIPTION_LEN, HISTORY_FILE_NAME};
use thinkmate::settings::CONFIG_FILE_NAME;
use thinkmate::output::ChatOutput;

fn flat(ulid: u128, turns: Vec<Party<String>>) -> SavedChat<String> {
    SavedChat { ulid, model: "m".to_string(), content: turns }
}

fn q(s: &str) -> Party<String> {
    Party::Query(s.to_string())
}

fn r(s: &str) -> Party<String> {
    Party::Reply(s.to_string())
}

#[test]
fn round_trip_gives_the_flat_record_back() {
    let records = vec![
        flat(0, vec![]),
        flat(1, vec![q("hi"), r("hello")]),
        flat(2, vec![q("a"), r("x\n\ny```py\nz\n```w"), q("b"), r("```open"), q(""), r("")]),
        flat(3, vec![r("reply first\n\n"), r("\n\n\n\n"), q("``` in a query\n\n")]),
        flat(u128::MAX, vec![q("é日🙂"), r("é\n\n日```🙂```")]),
    ];
    for record in records {
        let live = record.duplicate().to_chat_output();
        assert_eq!(live.ulid, record.ulid);
        assert_eq!(live.model, record.model);
        assert_eq!(live.content.len(), record.content.len());
        assert_eq!(live.to_flat(), record);
        assert_eq!(live.flatten_output(), record);
    }
}

#[test]
fn rehydrate_cuts_replies_into_blocks() {
    let live = flat(5, vec![q("a\n\nb"), r("a\n\nb")]).to_chat_output();
    assert!(matches!(&live.content[0], Party::Query(s) if s == "a\n\nb"));
    match &live.content[1] {
        Party::Reply(output) => {
            assert_eq!(output.chunks().len(), 1);
            assert_eq!(output.chunks()[0].raw_content, "a");
            assert_eq!(output.unparsed(), "b");
            assert_eq!(output.raw(), "a\n\nb");
        }
        Party::Query(_) => panic!("reply became a query"),
    }
}

#[test]
fn flatten_takes_the_raw_text() {
    let mut output = ChatOutput::new();
    output.add_content("one\n\ntwo```th");
    output.add_content("ree");
    let live = SavedChat {
        ulid: 8,
        model: "m".to_string(),
        content: vec![Party::Query("count".to_string()), Party::Reply(output)],
    };
    assert_eq!(live.flatten_output(), flat(8, vec![q("count"), r("one\n\ntwo```three")]));
}

#[test]
fn description_is_the_head_of_the_first_query() {
    assert_eq!(DESCRIPTION_LEN, 40);
    assert_eq!(flat(1, vec![]).description(), "");
    assert_eq!(flat(1, vec![q("short"), r("x")]).description(), "short");
    assert_eq!(flat(1, vec![q("")]).description(), "");
    assert_eq!(flat(1, vec![r("reply first"), q("later")]).description(), "");
    let forty = "0123456789012345678901234567890123456789";
    assert_eq!(flat(1, vec![q(forty)]).description(), forty);
    let longer = "0123456789012345678901234567890123456789X and more";
    assert_eq!(flat(1, vec![q(longer)]).description(), forty);
    // Forty characters, not forty bytes.
    let wide = "日".repeat(41);
    assert_eq!(flat(1, vec![q(&wide)]).description(), "日".repeat(40));
    let mixed = format!("{}é🙂tail", "a".repeat(38));
    assert_eq!(flat(1, vec![q(&mixed)]).description(), format!("{}é🙂", "a".repeat(38)));
}

#[test]
fn files_have_their_names() {
    assert_eq!(HISTORY_FILE_NAME, "history.json");
    assert_eq!(CONFIG_FILE_NAME, "config.json");
}

#[test]
fn scenario_nothing_loaded_gives_empty_history() {
    assert_eq!(history_or_empty(None), Vec::<SavedChat<String>>::new());
    let kept = vec![flat(1, vec![q("a")]), flat(2, vec![])];
    assert_eq!(history_or_empty(Some(vec![flat(1, vec![q("a")]), flat(2, vec![])])), kept);
    assert_eq!(history_or_empty(Some(vec![])), Vec::<SavedChat<String>>::new());
}

#[test]
fn copies_are_equal() {
    let record = flat(3, vec![q("a"), r("b\n\n")]);
    assert_eq!(record.duplicate(), record);
    assert_eq!(record.clone(), record);
    assert_eq!(q("x").clone(), q("x"));
    assert_ne!(q("x"), r("x"));
    let live = record.duplicate().to_chat_output();
    assert_eq!(live.clone().flatten_output(), record);
}
