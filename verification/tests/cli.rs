use sebastian_core::ariel::page::ArielTitlePage;
use sebastian_core::ariel::ArielUserConfig;
use sebastian_core::cli::{
    accessible_pages, password_choice, suggest_addresses, username_choice, App, AppConfig, Ariel,
    ArielAction, Command, CommandError, Credential, Session, Time, TimeTableAction, Unimia,
    UnimiaAction,
};
use sebastian_core::unimia::UnimiaUserConfig;

fn app_config() -> AppConfig {
    config_with(false)
}

fn config_with(silent: bool) -> AppConfig {
    AppConfig { config_path: "/tmp/cfg".to_string(), save: false, silent }
}

#[test]
fn the_options_reach_every_subcommand() {
    let app = App {
        config_path: "/home/u/.config/sebastian/config".to_string(),
        save: true,
        silent: false,
        action: Command::Time(Time { action: TimeTableAction::Show, user_config: None }),
    };
    let c = app.to_config();
    assert_eq!(c.config_path, "/home/u/.config/sebastian/config");
    assert!(c.save);
    assert!(!c.silent);
}

#[test]
fn timetable_and_unimia_are_not_available_yet() {
    let mut t = Time { action: TimeTableAction::Init, user_config: None };
    assert!(matches!(t.run(app_config(), None), Err(CommandError::NotAvailable)));
    let mut u = Unimia { action: UnimiaAction::Show, user_config: None };
    assert!(matches!(u.run(app_config(), None), Err(CommandError::NotAvailable)));
    let d = UnimiaUserConfig::default();
    assert!(d.username.is_empty() && d.password.is_empty());
}

fn stored() -> ArielUserConfig {
    ArielUserConfig { username: "mario@studenti.unimi.it".to_string(), password: "pw".to_string() }
}

#[test]
fn scraping_logs_in_with_stored_credentials() {
    let mut a = Ariel {
        action: ArielAction::Scrape { auto: true, output: "out".to_string(), url: "https://ariel.unimi.it/".to_string() },
        user_config: None,
        app_config: None,
    };
    a.start(app_config(), Some(stored()));
    match a.session() {
        Session::Stored(c) => assert_eq!(c.username, "mario@studenti.unimi.it"),
        _ => panic!("expected the stored credentials"),
    }
    a.start(app_config(), None);
    assert!(matches!(a.session(), Session::Prompt { username: None, password: None, auto: false }));
}

#[test]
fn initializing_proposes_the_stored_user_name_and_saves() {
    let mut a = Ariel {
        action: ArielAction::Init { username: None, password: Some("secret".to_string()) },
        user_config: None,
        app_config: None,
    };
    a.start(app_config(), Some(stored()));
    match a.session() {
        Session::Prompt { username, password, auto } => {
            assert_eq!(username, Some("mario@studenti.unimi.it".to_string()));
            assert_eq!(password, Some("secret".to_string()));
            assert!(!auto);
        }
        _ => panic!("expected a prompt"),
    }
    a.finish_action();
    let (c, u) = a.outcome().unwrap();
    assert!(c.save);
    assert_eq!(u.password, "pw");
    let mut b = Ariel {
        action: ArielAction::Init { username: Some("given".to_string()), password: None },
        user_config: None,
        app_config: None,
    };
    b.start(app_config(), Some(stored()));
    assert!(matches!(b.session(), Session::Prompt { username: None, .. }));
    b.start(app_config(), None);
    assert!(b.outcome().is_none());
    b.logged_in(stored());
    assert!(b.outcome().is_some());
}

#[test]
fn credentials_are_taken_only_when_automatic() {
    assert!(matches!(username_choice(Some("u".to_string()), true), Credential::Take(ref s) if s == "u"));
    assert!(matches!(username_choice(Some("u".to_string()), false), Credential::Ask(Some(ref s)) if s == "u"));
    assert!(matches!(username_choice(None, true), Credential::Ask(None)));
    assert!(matches!(password_choice(Some("p".to_string()), true), Credential::Take(ref s) if s == "p"));
    assert!(matches!(password_choice(Some("p".to_string()), false), Credential::Ask(None)));
    assert!(matches!(password_choice(None, true), Credential::Ask(None)));
}

#[test]
fn a_silent_run_asks_for_no_credential() {
    let mut a = Ariel {
        action: ArielAction::Search { name: "analisi".to_string() },
        user_config: None,
        app_config: None,
    };
    assert!(a.asks());
    a.start(config_with(true), None);
    assert!(!a.asks());
    assert!(matches!(a.session(), Session::Unanswered));
    a.start(config_with(true), Some(stored()));
    assert!(matches!(a.session(), Session::Stored(_)));

    let mut b = Ariel {
        action: ArielAction::Init { username: None, password: Some("secret".to_string()) },
        user_config: None,
        app_config: None,
    };
    b.start(config_with(true), Some(stored()));
    match b.session() {
        Session::Prompt { username, password, auto } => {
            assert!(auto);
            let u = username_choice(username, auto);
            let p = password_choice(password, auto);
            assert!(matches!(u, Credential::Take(ref s) if s == "mario@studenti.unimi.it"));
            assert!(matches!(p, Credential::Take(ref s) if s == "secret"));
        }
        _ => panic!("expected the given credentials to be taken"),
    }
    b.start(config_with(true), None);
    assert!(matches!(b.session(), Session::Unanswered));

    let mut c = Ariel {
        action: ArielAction::Init { username: None, password: None },
        user_config: None,
        app_config: None,
    };
    c.start(config_with(true), Some(stored()));
    assert!(matches!(c.session(), Session::Unanswered));
    c.start(config_with(false), Some(stored()));
    assert!(matches!(c.session(), Session::Prompt { auto: false, .. }));
}

#[test]
fn addresses_are_completed_to_university_domains() {
    assert_eq!(suggest_addresses("mario@stu"), Some(vec!["mario@studenti.unimi.it".to_string()]));
    assert_eq!(
        suggest_addresses("mario@"),
        Some(vec!["mario@studenti.unimi.it".to_string(), "mario@unimi.it".to_string()])
    );
    assert_eq!(suggest_addresses("mario@un"), Some(vec!["mario@unimi.it".to_string()]));
    assert_eq!(suggest_addresses("mario"), Some(vec![]));
    assert_eq!(suggest_addresses("mario@gmail"), Some(vec![]));
    for s in suggest_addresses("a@").unwrap() {
        assert!(s.starts_with("a@"));
    }
}

#[test]
fn only_open_courses_are_offered() {
    let p = |t: &str, open: bool| ArielTitlePage { title: t.to_string(), url: "https://a/".to_string(), holders: vec![], can_access: open };
    let v = vec![p("a", true), p("b", false), p("c", true)];
    let r = accessible_pages(&v);
    assert_eq!(r.iter().map(|x| x.title.clone()).collect::<Vec<_>>(), vec!["a".to_string(), "c".to_string()]);
    assert!(r.iter().all(|x| x.can_access));
}
