//! The read façade, the diagnostics listing, settings, and account rules.
use stargazer::catalog::{Catalog, Key};
use stargazer::diagnostics::DiagnosticsJson;
use stargazer::facade::{
    CommandFilter, MultipleCommandSql, RequestCommandsJson,
};
use stargazer::settings::{Mode, Settings};
use stargazer::upload::ImageName;
use stargazer::user::{
    validate_modify_user, validate_new_user, validate_remove_user, ModifyUserDecision,
    ModifyUserJson, NewUserDecision, RemoveUserDecision, User,
};

fn setup() -> (Catalog, String) {
    let mut cat = Catalog::new();
    let token = String::from("token-alpha");
    cat.keys.push(Key {
        id: 1,
        api_token: token.clone(),
        name: String::from("Observatory"),
    });
    cat.next_key_id = 2;
    (cat, token)
}

#[test]
fn to_json_renders_the_exact_object() {
    let row = MultipleCommandSql {
        target: String::from("Mars"),
        position: String::from("Zenith"),
        associated_key: 7,
        id: 42,
        name: String::from("Observatory"),
        status: 3,
        datetime: String::from("1700000000"),
    };
    assert_eq!(
        row.to_json(),
        "{\"target\": \"Mars\", \"position\": \"Zenith\", \"id\": 42, \"name\": \"Observatory\", \"key_id\": 7, \"status\": 3, \"datetime\": \"1700000000\"}"
    );
}

#[test]
fn listings_join_names_and_filter_by_status() {
    let (mut cat, token) = setup();
    let a = cat.enqueue(5, 2, 1).expect("enqueue");
    cat.enqueue(1, 1, 1).expect("enqueue");
    cat.dispatch(token.as_str());
    cat.report(token.as_str(), a, 2, Some(1700000500)).expect("report");

    let all = cat.get_commands(0);
    assert_eq!(all.len(), 2);
    assert_eq!(all[0].target, "Mars");
    assert_eq!(all[0].position, "Zenith");
    assert_eq!(all[0].name, "Observatory");
    assert_eq!(all[0].status, 2);
    assert_eq!(all[0].datetime, "1700000500");
    assert_eq!(all[1].target, "Sun");
    assert_eq!(all[1].datetime, "");

    assert_eq!(cat.get_commands_by_status(2, 0).len(), 1);
    assert_eq!(cat.get_commands_by_status(3, 0).len(), 0);
    assert_eq!(cat.get_commands_by_key(1, 0).len(), 2);
    assert_eq!(cat.get_commands_by_key(9, 0).len(), 0);
    assert_eq!(cat.get_in_progress_commands(0).len(), 2);
    assert_eq!(cat.get_completed_commands(0).len(), 0);
    assert_eq!(cat.get_failed_commands(0).len(), 0);
    assert_eq!(cat.get_deleted_commands(0).len(), 0);
}

#[test]
fn listing_pages_hold_twentyfive_rows() {
    let (mut cat, _token) = setup();
    for _ in 0..30 {
        cat.enqueue(5, 2, 1).expect("enqueue");
    }
    assert_eq!(cat.get_commands(0).len(), 25);
    assert_eq!(cat.get_commands(1).len(), 5);
    assert_eq!(cat.get_commands(2).len(), 0);
    assert_eq!(cat.get_commands(-1).len(), 25);
    let second = cat.get_commands(1);
    assert_eq!(second[0].id, 26);
}

#[test]
fn counts_and_statistics_follow_statuses() {
    let (mut cat, token) = setup();
    let a = cat.enqueue(5, 2, 1).expect("enqueue");
    cat.enqueue(2, 1, 1).expect("enqueue");
    cat.enqueue(3, 3, 1).expect("enqueue");
    cat.dispatch(token.as_str());
    cat.report(token.as_str(), a, -1, None).expect("report");
    cat.soft_delete(2);

    let stats = cat.fetch_command_statistics();
    assert_eq!(stats.completed, 0);
    assert_eq!(stats.failed, 1);
    assert_eq!(stats.in_progress, 1);

    let by_status = cat.count_commands(CommandFilter::Status(-1));
    assert_eq!(by_status.count, 1);
    assert_eq!(by_status.status, -1);
    assert_eq!(cat.count_commands(CommandFilter::Deleted).count, 1);
    assert_eq!(cat.count_commands(CommandFilter::Key(1)).count, 3);
    assert_eq!(cat.count_commands(CommandFilter::All).count, 3);
}

#[test]
fn listing_response_is_exact_json() {
    let cat = Catalog::new();
    let payload = RequestCommandsJson {
        filter_type: 0,
        filter_value: None,
        page: None,
    };
    assert_eq!(
        cat.request_commands_info(&payload),
        "{\"commands\":[], \"total_count\": 0, \"pages\": 0, \"page\": 0}"
    );
    let bad = RequestCommandsJson {
        filter_type: 9,
        filter_value: None,
        page: Some(2),
    };
    assert_eq!(
        cat.request_commands_info(&bad),
        "{\"commands\":[], \"total_count\": 0, \"pages\": 0, \"page\": 2}"
    );
}

#[test]
fn listing_response_carries_rows_and_pages() {
    let (mut cat, _token) = setup();
    cat.enqueue(5, 2, 1).expect("enqueue");
    cat.enqueue(1, 4, 1).expect("enqueue");
    let payload = RequestCommandsJson {
        filter_type: 0,
        filter_value: None,
        page: Some(0),
    };
    let body = cat.request_commands_info(&payload);
    let expected_rows = format!(
        "{},{}",
        cat.get_commands(0)[0].to_json(),
        cat.get_commands(0)[1].to_json()
    );
    assert_eq!(
        body,
        format!(
            "{{\"commands\":[{}], \"total_count\": 2, \"pages\": 1, \"page\": 0}}",
            expected_rows
        )
    );
    let by_status = RequestCommandsJson {
        filter_type: 5,
        filter_value: Some(0),
        page: Some(0),
    };
    let sbody = cat.request_commands_info(&by_status);
    assert!(sbody.contains("\"total_count\": 2"));
    let missing_value = RequestCommandsJson {
        filter_type: 5,
        filter_value: None,
        page: Some(0),
    };
    assert_eq!(
        cat.request_commands_info(&missing_value),
        "{\"commands\":[], \"total_count\": 0, \"pages\": 0, \"page\": 0}"
    );
}

#[test]
fn next_estimate_picks_earliest_processing_command() {
    let (mut cat, token) = setup();
    let a = cat.enqueue(5, 2, 1).expect("enqueue");
    let b = cat.enqueue(2, 1, 1).expect("enqueue");
    assert!(cat.get_next_pic_estimate().is_none());
    cat.dispatch(token.as_str());
    cat.dispatch(token.as_str());
    cat.report(token.as_str(), a, 2, Some(2000)).expect("report");
    cat.report(token.as_str(), b, 2, Some(1500)).expect("report");
    let next = cat.get_next_pic_estimate().expect("estimate");
    assert_eq!(next.target, "Moon");
    assert_eq!(next.datetime, "1500");
}

#[test]
fn target_and_position_tables_are_exposed() {
    let cat = Catalog::new();
    let targets = cat.get_target_names();
    assert_eq!(targets.len(), 9);
    assert_eq!(targets[4].name, "Mars");
    let positions = cat.get_target_positions();
    assert_eq!(positions.len(), 4);
    assert_eq!(positions[1].position, "Zenith");
}

#[test]
fn image_name_joins_with_underscore() {
    let name = ImageName {
        target: String::from("Mars"),
        position: String::from("Zenith"),
    };
    assert_eq!(name.to_string(), "Mars_Zenith");
}

#[test]
fn diagnostics_ingestion_validates_token_and_status() {
    let (mut cat, token) = setup();
    let ok = DiagnosticsJson {
        token: token.clone(),
        status: 2,
        message: String::from("voltage low"),
    };
    assert!(cat.send_diagnostics(&ok).is_ok());
    let bad_status = DiagnosticsJson {
        token: token.clone(),
        status: 4,
        message: String::from("?"),
    };
    assert!(cat.send_diagnostics(&bad_status).is_err());
    let bad_token = DiagnosticsJson {
        token: String::from("no-such-token"),
        status: 1,
        message: String::from("?"),
    };
    assert!(cat.send_diagnostics(&bad_token).is_err());
    assert_eq!(cat.diagnostics.len(), 1);
    assert_eq!(cat.diagnostics[0].status, 2);
    assert_eq!(cat.diagnostics[0].message, "voltage low");
}

#[test]
fn diagnostics_listing_joins_filters_and_pages() {
    let (mut cat, token) = setup();
    cat.keys.push(Key {
        id: 2,
        api_token: String::from("token-beta"),
        name: String::from("Relay"),
    });
    cat.next_key_id = 3;
    for k in 0..3i64 {
        let msg = DiagnosticsJson {
            token: token.clone(),
            status: 1 + (k % 3),
            message: format!("event {}", k),
        };
        cat.send_diagnostics(&msg).expect("send");
    }
    let relay = DiagnosticsJson {
        token: String::from("token-beta"),
        status: 3,
        message: String::from("overheat"),
    };
    cat.send_diagnostics(&relay).expect("send");

    let all = cat.get_diagnostics(None, None, None);
    assert_eq!(all.page, 1);
    assert_eq!(all.pages, 1);
    assert_eq!(all.status, 0);
    assert_eq!(all.data.len(), 4);
    assert_eq!(all.data[0].name, "Observatory");
    assert_eq!(all.data[0].status, "Info");
    assert_eq!(all.data[3].name, "Relay");
    assert_eq!(all.data[3].status, "Error");

    let errors = cat.get_diagnostics(None, None, Some(3));
    assert_eq!(errors.data.len(), 2);
    assert_eq!(errors.status, 3);

    let relay_only = cat.get_diagnostics(Some(String::from("Relay")), None, None);
    assert_eq!(relay_only.data.len(), 1);
    assert_eq!(relay_only.data[0].message, "overheat");

    let nonsense = cat.get_diagnostics(None, None, Some(9));
    assert_eq!(nonsense.data.len(), 0);
    assert_eq!(nonsense.status, 0);

    let names = cat.get_diagnostics_names();
    assert_eq!(names.len(), 2);
    assert_eq!(names[0].name, "Observatory");
    assert_eq!(names[1].name, "Relay");
}

#[test]
fn settings_select_their_mode() {
    let mut s = Settings {
        address: String::from("127.0.0.1"),
        port_http: 8080,
        port_https: 8443,
        enable_http: true,
        enable_http_api: false,
        enable_https: false,
        enable_https_api: false,
        db_dir: String::from("db"),
        assets_dir: String::from("assets"),
        certs_dir: String::from("certs"),
    };
    assert_eq!(s.get_mode(), Mode::Http);
    s.enable_https = true;
    assert_eq!(s.get_mode(), Mode::Both);
    s.enable_http = false;
    s.enable_https = false;
    s.enable_http_api = true;
    s.enable_https_api = true;
    assert_eq!(s.get_mode(), Mode::BothApi);
    s.enable_http_api = false;
    s.enable_https_api = false;
    assert_eq!(s.get_mode(), Mode::Off);
    assert_eq!(Mode::from(3u8), Mode::Https);
    assert_eq!(Mode::from(77u8), Mode::Off);
}

#[test]
fn account_rules_decide_requests() {
    let admin = User {
        id: 1,
        username: String::from("root1"),
        password: String::from("pw"),
        superuser: true,
    };
    let plain = User {
        id: 2,
        username: String::from("watcher"),
        password: String::from("pw"),
        superuser: false,
    };
    assert_eq!(
        validate_new_user(&plain, "newbie", "pw123"),
        NewUserDecision::NotAuthorized
    );
    assert_eq!(
        validate_new_user(&admin, "new user", "pw123"),
        NewUserDecision::InvalidUsername
    );
    assert_eq!(
        validate_new_user(&admin, "newbie", "pw 123"),
        NewUserDecision::InvalidPassword
    );
    assert_eq!(
        validate_new_user(&admin, "newbie", "pw123!"),
        NewUserDecision::Accept
    );

    assert_eq!(
        validate_remove_user(&plain, 1),
        RemoveUserDecision::NotAuthorized
    );
    assert_eq!(
        validate_remove_user(&admin, 1),
        RemoveUserDecision::CannotRemoveSelf
    );
    assert_eq!(validate_remove_user(&admin, 2), RemoveUserDecision::Accept);

    let details = ModifyUserJson {
        id: Some(2),
        username: Some(String::from("renamed")),
        password: Some(String::from("")),
    };
    assert!(matches!(
        validate_modify_user(None, &details),
        ModifyUserDecision::NotLoggedIn
    ));
    assert!(matches!(
        validate_modify_user(Some(&plain), &details),
        ModifyUserDecision::Apply(2, Some(_), None)
    ));
    let foreign = ModifyUserJson {
        id: Some(1),
        username: None,
        password: None,
    };
    assert!(matches!(
        validate_modify_user(Some(&plain), &foreign),
        ModifyUserDecision::NotAuthorized
    ));
    let bad_name = ModifyUserJson {
        id: None,
        username: Some(String::from("")),
        password: None,
    };
    assert!(matches!(
        validate_modify_user(Some(&admin), &bad_name),
        ModifyUserDecision::InvalidUsername
    ));
    let bad_pw = ModifyUserJson {
        id: None,
        username: None,
        password: Some(String::from("bad pw")),
    };
    assert!(matches!(
        validate_modify_user(Some(&admin), &bad_pw),
        ModifyUserDecision::InvalidPassword
    ));
}
