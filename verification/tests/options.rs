use lime_bit::options::{
    make_options, nonempty_list, parse_headers, parse_list, priority_choice, speed_limit,
    split_list, DownloadForm, Priority, SeedRatio,
};
use lime_bit::state::{make_global_limits_command, AppCommand};

fn form() -> DownloadForm {
    DownloadForm {
        save_dir: String::new(),
        filename: String::new(),
        user_agent: String::new(),
        referer: String::new(),
        headers: String::new(),
        cookies: String::new(),
        mirrors: String::new(),
        max_connections: "16".to_string(),
        max_download_speed: String::new(),
        max_upload_speed: String::new(),
        seed_ratio: "1.0".to_string(),
        selected_files: String::new(),
        priority: "normal".to_string(),
        start_paused: "false".to_string(),
        sequential: "false".to_string(),
        seed_after: "true".to_string(),
    }
}

#[test]
fn lists_are_trimmed_and_skip_blanks() {
    assert_eq!(split_list(" a , ,b,, c "), vec!["a", "b", "c"]);
    assert_eq!(split_list(""), Vec::<String>::new());
    assert_eq!(nonempty_list(" , "), None);
    assert_eq!(nonempty_list("x=1, y=2"), Some(vec!["x=1".to_string(), "y=2".to_string()]));
}

#[test]
fn index_lists_skip_entries_that_are_not_numbers() {
    assert_eq!(parse_list("0,2, 4"), Some(vec![0, 2, 4]));
    assert_eq!(parse_list("1, x, -3, +5"), Some(vec![1, 5]));
    assert_eq!(parse_list(""), None);
    assert_eq!(parse_list("a,b"), None);
}

#[test]
fn headers_split_at_the_first_colon() {
    assert_eq!(
        parse_headers("Accept: text/html, X-Url: http://a, broken"),
        vec![
            ("Accept".to_string(), "text/html".to_string()),
            ("X-Url".to_string(), "http://a".to_string()),
        ]
    );
    assert_eq!(parse_headers(""), vec![]);
}

#[test]
fn priority_names_and_numbers() {
    assert_eq!(priority_choice(" HIGH "), Priority::High);
    assert_eq!(priority_choice("low"), Priority::Low);
    assert_eq!(priority_choice("-1"), Priority::Low);
    assert_eq!(priority_choice("2"), Priority::Critical);
    assert_eq!(priority_choice("Critical"), Priority::Critical);
    assert_eq!(priority_choice("urgent"), Priority::Normal);
    assert_eq!(priority_choice(""), Priority::Normal);
    assert_eq!(priority_choice("hígh"), Priority::Normal);
    assert_eq!(priority_choice("\u{212a}"), Priority::Normal);
}

#[test]
fn default_form_gives_default_options() {
    let plan = make_options(&form());
    assert!(!plan.start_paused);
    assert_eq!(plan.sequential, Some(false));
    assert_eq!(plan.save_dir, None);
    assert_eq!(plan.filename, None);
    assert_eq!(plan.max_connections, Some(16));
    assert_eq!(plan.max_download_speed, None);
    assert_eq!(plan.max_upload_speed, None);
    assert!(matches!(plan.seed_ratio, SeedRatio::FromText(ref t) if t == "1.0"));
    assert_eq!(plan.selected_files, None);
    assert_eq!(plan.priority, Priority::Normal);
    assert!(plan.mirrors.is_empty());
    assert_eq!(plan.cookies, None);
    assert!(plan.headers.is_empty());
}

#[test]
fn filled_form_gives_its_options() {
    let mut f = form();
    f.save_dir = " D:/Media ".to_string();
    f.filename = "   ".to_string();
    f.user_agent = "agent/1".to_string();
    f.start_paused = " TRUE ".to_string();
    f.sequential = "True".to_string();
    f.max_connections = "x".to_string();
    f.max_download_speed = " 1000 ".to_string();
    f.max_upload_speed = "0".to_string();
    f.seed_after = " False ".to_string();
    f.selected_files = "3, 1".to_string();
    f.priority = "critical".to_string();
    f.mirrors = "http://m1, http://m2".to_string();
    f.cookies = "a=1".to_string();
    f.headers = "K:V".to_string();
    let plan = make_options(&f);
    assert!(plan.start_paused);
    assert_eq!(plan.sequential, Some(true));
    assert_eq!(plan.save_dir, Some(" D:/Media ".to_string()));
    assert_eq!(plan.filename, None);
    assert_eq!(plan.user_agent, Some("agent/1".to_string()));
    assert_eq!(plan.max_connections, None);
    assert_eq!(plan.max_download_speed, Some(1000));
    assert_eq!(plan.max_upload_speed, Some(0));
    assert!(matches!(plan.seed_ratio, SeedRatio::NoSeeding));
    assert_eq!(plan.selected_files, Some(vec![3, 1]));
    assert_eq!(plan.priority, Priority::Critical);
    assert_eq!(plan.mirrors, vec!["http://m1", "http://m2"]);
    assert_eq!(plan.cookies, Some(vec!["a=1".to_string()]));
    assert_eq!(plan.headers, vec![("K".to_string(), "V".to_string())]);
}

#[test]
fn global_limits_must_be_positive_numbers() {
    assert_eq!(speed_limit(&" 500 ".to_string()), Some(500));
    assert_eq!(speed_limit(&"0".to_string()), None);
    assert_eq!(speed_limit(&"".to_string()), None);
    let mut f = form();
    f.max_download_speed = "2048".to_string();
    f.max_upload_speed = "fast".to_string();
    match make_global_limits_command(&f) {
        AppCommand::SetGlobalLimits { download, upload } => {
            assert_eq!(download, Some(2048));
            assert_eq!(upload, None);
        }
        other => panic!("unexpected command {other:?}"),
    }
}
