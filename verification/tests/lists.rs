use thinkmate::api::{ConnectionFailed, LocalModel, OllamaConfig, WorkerInput, DEFAULT_PORT};
use thinkmate::chat::ChatState;
use thinkmate::history::{Party, SavedChat};
use thinkmate::menubar::{models_equal, monitor_step, Menubar, MonitorReport};
use thinkmate::settings::{MessageSettings, Settings, SettingsTheme};
use thinkmate::sidebar::Sidebar;
use thinkmate::tabs::{EmptyChats, Main, SidebarVisibility};

fn kept(ulid: u128, tag: &str) -> SavedChat<String> {
    SavedChat { ulid, model: tag.to_string(), content: vec![Party::Query(tag.to_string())] }
}

fn tags(chats: &Vec<SavedChat<String>>) -> Vec<(u128, String)> {
    chats.iter().map(|c| (c.ulid, c.model.clone())).collect()
}

fn pairs(v: &[(u128, &str)]) -> Vec<(u128, String)> {
    v.iter().map(|(u, t)| (*u, t.to_string())).collect()
}

fn model(name: &str) -> LocalModel {
    LocalModel { name: name.to_string(), modified_at: "t".to_string(), size: 1 }
}

#[test]
fn add_chat_keeps_the_list_sorted() {
    let mut side = Sidebar::new(vec![]);
    for (ulid, tag) in [(5, "a"), (3, "b"), (9, "c"), (1, "d"), (7, "e")] {
        side.add_chat(kept(ulid, tag));
    }
    assert_eq!(tags(&side.chats), pairs(&[(1, "d"), (3, "b"), (5, "a"), (7, "e"), (9, "c")]));
}

#[test]
fn add_chat_is_stable() {
    let mut side = Sidebar::new(vec![]);
    for (ulid, tag) in [(5, "first"), (3, "x"), (5, "second"), (9, "y"), (5, "third")] {
        side.add_chat(kept(ulid, tag));
    }
    assert_eq!(
        tags(&side.chats),
        pairs(&[(3, "x"), (5, "first"), (5, "second"), (5, "third"), (9, "y")])
    );
}

#[test]
fn add_chat_sorts_an_unsorted_list() {
    let mut side = Sidebar::new(vec![kept(9, "a"), kept(2, "b"), kept(9, "c"), kept(1, "d")]);
    side.add_chat(kept(2, "e"));
    assert_eq!(tags(&side.chats), pairs(&[(1, "d"), (2, "b"), (2, "e"), (9, "a"), (9, "c")]));
    let mut expected = vec![kept(9, "a"), kept(2, "b"), kept(9, "c"), kept(1, "d"), kept(2, "e")];
    expected.sort_by(|a, b| a.ulid.cmp(&b.ulid));
    assert_eq!(side.chats, expected);
}

#[test]
fn remove_chat_takes_the_first_match() {
    let mut side = Sidebar::new(vec![kept(1, "a"), kept(2, "b"), kept(2, "c"), kept(3, "d")]);
    assert_eq!(side.position(2), Some(1));
    assert_eq!(side.position(4), None);
    assert!(side.remove_chat(2));
    assert_eq!(tags(&side.chats), pairs(&[(1, "a"), (2, "c"), (3, "d")]));
    assert!(!side.remove_chat(4));
    assert_eq!(tags(&side.chats), pairs(&[(1, "a"), (2, "c"), (3, "d")]));
    assert!(side.remove_chat(1));
    assert!(side.remove_chat(2));
    assert!(side.remove_chat(3));
    assert!(side.chats.is_empty());
    assert!(!side.remove_chat(3));
}

#[test]
fn toggle_switches_between_the_two() {
    assert_eq!(SidebarVisibility::Expanded.toggle(), SidebarVisibility::Collapsed);
    assert_eq!(SidebarVisibility::Collapsed.toggle(), SidebarVisibility::Expanded);
    assert_eq!(SidebarVisibility::default(), SidebarVisibility::Expanded);
    assert_eq!(EmptyChats::new(), EmptyChats {});
}

#[test]
fn main_starts_without_tabs() {
    let main = Main::new(vec![kept(1, "a")]);
    assert_eq!(main.chat_view, 0);
    assert!(main.tabs.is_empty());
    assert_eq!(tags(&main.sidebar.chats), pairs(&[(1, "a")]));
    assert_eq!(main.sidebar_visibility, SidebarVisibility::Expanded);
    assert_eq!(main.find_chat_position(1), None);
    assert!(main.find_chat(1).is_none());
}

#[test]
fn tabs_are_found_by_identifier() {
    let mut main = Main::new(vec![]);
    main.add_saved(kept(10, "a"));
    main.add_saved(kept(20, "b"));
    main.add_saved(kept(10, "c"));
    main.add_new(model("fresh"));
    assert_eq!(main.tabs.len(), 4);
    assert_eq!(main.tabs[3].model(), "fresh");
    assert_eq!(main.find_chat_position(10), Some(0));
    assert_eq!(main.find_chat_position(20), Some(1));
    assert_eq!(main.find_chat_position(30), None);
    assert_eq!(main.find_chat(10).map(|c| c.model()), Some("a".to_string()));
    assert_eq!(main.find_chat(20).map(|c| c.model()), Some("b".to_string()));
    assert!(main.find_chat(30).is_none());
    assert!(main.find_chat_mut(30).is_none());
    let chat = main.find_chat_mut(20).unwrap();
    chat.edit_draft("typed".to_string());
    assert!(matches!(&main.tabs[1].state, ChatState::Prompting(d) if d == "typed"));
    assert!(matches!(&main.tabs[0].state, ChatState::Prompting(d) if d.is_empty()));
}

#[test]
fn close_and_select_tabs() {
    let mut main = Main::new(vec![]);
    main.add_saved(kept(10, "a"));
    main.add_saved(kept(20, "b"));
    main.add_saved(kept(10, "c"));
    assert!(main.select_chat(20));
    assert_eq!(main.chat_view, 1);
    assert!(!main.select_chat(99));
    assert_eq!(main.chat_view, 1);
    assert!(main.close_chat(10));
    assert_eq!(main.tabs.iter().map(|c| c.model()).collect::<Vec<_>>(), vec!["b", "c"]);
    assert_eq!(main.chat_view, 1);
    assert!(!main.close_chat(99));
    assert_eq!(main.tabs.len(), 2);
    main.toggle_sidebar();
    assert_eq!(main.sidebar_visibility, SidebarVisibility::Collapsed);
    main.toggle_sidebar();
    assert_eq!(main.sidebar_visibility, SidebarVisibility::Expanded);
}

#[test]
fn a_turn_through_the_tab_in_view() {
    let mut main = Main::new(vec![]);
    assert!(!main.edit_prompt("nobody".to_string()));
    assert_eq!(main.send_prompt(), None);
    main.add_saved(kept(10, "a"));
    main.add_saved(SavedChat { ulid: 20, model: "b".to_string(), content: vec![] });
    assert!(main.select_chat(20));
    assert!(main.edit_prompt("why?".to_string()));
    assert_eq!(main.send_prompt(), Some((20, "b".to_string(), "why?".to_string())));
    // Sending again while the answer arrives sends nothing and changes nothing.
    assert_eq!(main.send_prompt(), None);
    assert!(matches!(
        &main.tabs[1].state,
        ChatState::Generating(g) if g.prompt == "why?" && g.output.raw().is_empty()
    ));
    assert!(main.stream_content(20, "be"));
    assert!(main.stream_content(20, "cause\n\n"));
    assert!(!main.stream_content(99, "lost"));
    // The other tab is prompting: the text is dropped.
    assert!(main.stream_content(10, "stray"));
    assert!(matches!(&main.tabs[0].state, ChatState::Prompting(d) if d.is_empty()));
    assert!(!main.stream_finished(99));
    assert!(main.sidebar.chats.is_empty());
    assert!(main.stream_finished(20));
    assert!(matches!(&main.tabs[1].state, ChatState::Prompting(d) if d.is_empty()));
    assert_eq!(
        main.sidebar.chats,
        vec![SavedChat {
            ulid: 20,
            model: "b".to_string(),
            content: vec![
                Party::Query("why?".to_string()),
                Party::Reply("because\n\n".to_string())
            ],
        }]
    );
    // Nothing is finished in a tab that waits for a prompt: its turns stay,
    // the kept list stays, and nothing is to be written.
    assert!(!main.stream_finished(10));
    assert!(!main.stream_finished(20));
    assert_eq!(tags(&main.sidebar.chats), pairs(&[(20, "b")]));
    assert_eq!(main.tabs[0].to_saved(), kept(10, "a"));
    assert_eq!(main.tabs[1].to_saved().content.len(), 2);
    assert!(matches!(&main.tabs[0].state, ChatState::Prompting(d) if d.is_empty()));
    assert_eq!(main.chat_view, 1);
}

#[test]
fn every_finished_answer_is_kept() {
    let mut main = Main::new(vec![kept(30, "later")]);
    main.add_saved(SavedChat { ulid: 20, model: "b".to_string(), content: vec![] });
    for (q, a) in [("q1", "a1"), ("q2", "a2")] {
        assert!(main.edit_prompt(q.to_string()));
        assert_eq!(main.send_prompt(), Some((20, "b".to_string(), q.to_string())));
        assert!(main.stream_content(20, a));
        assert!(main.stream_finished(20));
        assert!(!main.stream_finished(20));
    }
    assert_eq!(tags(&main.sidebar.chats), pairs(&[(20, "b"), (20, "b"), (30, "later")]));
    assert_eq!(main.sidebar.chats[0].content.len(), 2);
    assert_eq!(main.sidebar.chats[1].content.len(), 4);
}

#[test]
fn history_opens_in_a_new_tab_or_comes_into_view() {
    let mut main = Main::new(vec![kept(1, "a"), kept(2, "b"), kept(2, "c")]);
    main.open_history(2);
    assert_eq!(main.tabs.len(), 1);
    assert_eq!(main.tabs[0].model(), "b");
    assert_eq!(main.tabs[0].to_saved(), kept(2, "b"));
    assert_eq!(main.chat_view, 0);
    main.open_history(1);
    assert_eq!(main.tabs.len(), 2);
    assert_eq!(main.chat_view, 0);
    main.open_history(1);
    assert_eq!(main.tabs.len(), 2);
    assert_eq!(main.chat_view, 1);
    main.open_history(7);
    assert_eq!(main.tabs.len(), 2);
    assert_eq!(main.chat_view, 1);
    assert_eq!(main.sidebar.chats.len(), 3);
    assert!(main.delete_history(2));
    assert_eq!(tags(&main.sidebar.chats), pairs(&[(1, "a"), (2, "c")]));
    assert!(!main.delete_history(7));
    assert_eq!(main.tabs.len(), 2);
}

#[test]
fn menubar_drops_the_choice_with_the_models() {
    let mut bar = Menubar::new();
    assert!(!bar.connected);
    assert!(bar.models.is_empty());
    assert!(bar.selected.is_none());
    bar.set_models(vec![model("a"), model("b")]);
    bar.select(model("b"));
    bar.set_connected(true);
    assert!(bar.connected);
    assert_eq!(bar.selected, Some(model("b")));
    bar.set_models(vec![model("c")]);
    assert_eq!(bar.selected, Some(model("b")));
    assert_eq!(bar.models, vec![model("c")]);
    bar.set_models(vec![]);
    assert_eq!(bar.selected, None);
    assert!(bar.models.is_empty());
    assert!(bar.connected);
    bar.set_connected(false);
    assert!(!bar.connected);
}

#[test]
fn monitor_reports_changes_only() {
    let mut previous: Vec<LocalModel> = vec![];
    assert!(matches!(monitor_step(&mut previous, Err(ConnectionFailed)), MonitorReport::Disconnected));
    assert!(previous.is_empty());
    assert!(matches!(monitor_step(&mut previous, Ok(vec![])), MonitorReport::Connected));
    match monitor_step(&mut previous, Ok(vec![model("a"), model("b")])) {
        MonitorReport::ModelsChanged(models) => assert_eq!(models, vec![model("a"), model("b")]),
        _ => panic!("change not reported"),
    }
    assert_eq!(previous, vec![model("a"), model("b")]);
    assert!(matches!(
        monitor_step(&mut previous, Ok(vec![model("a"), model("b")])),
        MonitorReport::Connected
    ));
    assert!(matches!(monitor_step(&mut previous, Err(ConnectionFailed)), MonitorReport::Disconnected));
    assert_eq!(previous, vec![model("a"), model("b")]);
    assert!(matches!(
        monitor_step(&mut previous, Ok(vec![model("b"), model("a")])),
        MonitorReport::ModelsChanged(_)
    ));
    assert_eq!(previous, vec![model("b"), model("a")]);
    assert!(matches!(monitor_step(&mut previous, Ok(vec![])), MonitorReport::ModelsChanged(_)));
    assert!(previous.is_empty());
}

#[test]
fn models_compare_by_name_time_and_size() {
    let a = model("a");
    assert_eq!(a, model("a"));
    assert_ne!(a, model("b"));
    assert_ne!(a, LocalModel { name: "a".to_string(), modified_at: "u".to_string(), size: 1 });
    assert_ne!(a, LocalModel { name: "a".to_string(), modified_at: "t".to_string(), size: 2 });
    assert_eq!(a.name(), "a");
    assert_eq!(a.label(), "a");
    assert!(models_equal(&vec![], &vec![]));
    assert!(models_equal(&vec![model("a"), model("b")], &vec![model("a"), model("b")]));
    assert!(!models_equal(&vec![model("a"), model("b")], &vec![model("b"), model("a")]));
    assert!(!models_equal(&vec![model("a")], &vec![model("a"), model("a")]));
}

#[test]
fn server_address() {
    assert_eq!(DEFAULT_PORT, 11434);
    let config = OllamaConfig::localhost(DEFAULT_PORT);
    assert_eq!(config.host, "localhost");
    assert_eq!(config.port, 11434);
    assert_eq!(config.base_url(), "http://localhost");
    let other = OllamaConfig { host: "10.0.0.2".to_string(), port: 80 };
    assert_eq!(other.base_url(), "http://10.0.0.2");
    let WorkerInput::Monitor(watched) = WorkerInput::Monitor(config.clone());
    assert_eq!(watched.host, config.host);
    assert_eq!(watched.port, config.port);
}

#[test]
fn settings_take_the_chosen_theme() {
    let mut settings = Settings { theme: SettingsTheme::Light };
    settings.update(MessageSettings::ThemeSelected(SettingsTheme::Dark));
    assert_eq!(settings.theme, SettingsTheme::Dark);
    settings.update(MessageSettings::ThemeSelected(SettingsTheme::Dark));
    assert_eq!(settings.theme, SettingsTheme::Dark);
    settings.update(MessageSettings::ThemeSelected(SettingsTheme::Light));
    assert_eq!(settings.theme, SettingsTheme::Light);
}

#[test]
fn themes_and_their_names() {
    assert_eq!(SettingsTheme::ALL, [SettingsTheme::Light, SettingsTheme::Dark]);
    assert_eq!(SettingsTheme::Light.label(), "Light");
    assert_eq!(SettingsTheme::Dark.label(), "Dark");
    assert_eq!(SettingsTheme::from_system(true), SettingsTheme::Dark);
    assert_eq!(SettingsTheme::from_system(false), SettingsTheme::Light);
    let first_run = Settings::default();
    assert_eq!(first_run.theme, SettingsTheme::default());
}
