use vimmail::splits::{
    decide_subject, filter_by_split, generate_splits_from_identities, is_text_before,
    matches_any_split, matches_filter, matches_split, seed_from_identities,
};
use vimmail::types::{
    DateTime, Email, EmailAddress, FilterType, Identity, MatchMode, SplitFilter, SplitInbox,
    SplitsConfig,
};


fn make_email(from_email: &str, subject: &str) -> Email {
    Email {
        id: "test-id".into(),
        blob_id: "blob-id".into(),
        thread_id: "thread-id".into(),
        mailbox_ids: vec![],
        keywords: vec![],
        received_at: DateTime { year: 2026, month: 1, day: 1, hour: 0, minute: 0, second: 0, nanosecond: 0 },
        subject: subject.into(),
        from: vec![EmailAddress {
            name: None,
            email: from_email.into(),
        }],
        to: vec![EmailAddress {
            name: None,
            email: "recipient@example.com".into(),
        }],
        cc: vec![],
        preview: "Preview".into(),
        has_attachment: false,
        size: 1000,
        text_body: None,
        html_body: None,
        has_calendar: false,
        attachments: vec![],
    }
}

fn make_email_with_to(from: &str, to: &str, cc: &[&str]) -> Email {
    let mut email = make_email(from, "Test");
    email.to = vec![EmailAddress {
        name: None,
        email: to.into(),
    }];
    email.cc = cc
        .iter()
        .map(|e| EmailAddress {
            name: None,
            email: (*e).into(),
        })
        .collect();
    email
}

fn from_filter(pattern: &str) -> SplitFilter {
    SplitFilter {
        filter_type: FilterType::From,
        pattern: pattern.into(),
        name: None,
    }
}

fn subject_filter(pattern: &str) -> SplitFilter {
    SplitFilter {
        filter_type: FilterType::Subject,
        pattern: pattern.into(),
        name: None,
    }
}

fn to_filter(pattern: &str) -> SplitFilter {
    SplitFilter {
        filter_type: FilterType::To,
        pattern: pattern.into(),
        name: None,
    }
}


#[test]
fn from_filter_glob_match() {
    let email = make_email("user@calendar.google.com", "Test");
    assert!(matches_filter(
        &email,
        &from_filter("*@calendar.google.com")
    ));
}

#[test]
fn from_filter_wildcard_domain() {
    let email = make_email("user@calendar.google.com", "Test");
    assert!(matches_filter(
        &email,
        &from_filter("*@calendar.google.com")
    ));
}

#[test]
fn from_filter_wildcard_user() {
    let email = make_email("noreply@anything.com", "Test");
    assert!(matches_filter(&email, &from_filter("noreply@*")));
}

#[test]
fn from_filter_case_insensitive() {
    let email = make_email("User@Calendar.Google.Com", "Test");
    assert!(matches_filter(
        &email,
        &from_filter("*@calendar.google.com")
    ));
}

#[test]
fn from_filter_no_match() {
    let email = make_email("user@other.com", "Test");
    assert!(!matches_filter(
        &email,
        &from_filter("*@calendar.google.com")
    ));
}


#[test]
fn subject_filter_regex_match() {
    let email = make_email("sender@example.com", "Meeting invitation for team");
    assert!(matches_filter(
        &email,
        &subject_filter("invite|invitation|meeting")
    ));
}

#[test]
fn subject_filter_case_insensitive() {
    let email = make_email("sender@example.com", "MEETING INVITATION");
    assert!(matches_filter(
        &email,
        &subject_filter("invite|invitation|meeting")
    ));
}

#[test]
fn subject_filter_invalid_regex_falls_back_to_substring() {
    let email = make_email("sender@example.com", "Test [bracket] text");
    assert!(matches_filter(&email, &subject_filter("[bracket")));
}

#[test]
fn subject_filter_no_match() {
    let email = make_email("sender@example.com", "Nothing relevant here");
    assert!(!matches_filter(
        &email,
        &subject_filter("invite|invitation|meeting")
    ));
}


#[test]
fn to_filter_exact_match() {
    let email = make_email_with_to("sender@x.com", "user@example.com", &[]);
    assert!(matches_filter(&email, &to_filter("user@example.com")));
}

#[test]
fn to_filter_glob_wildcard() {
    let email = make_email_with_to("sender@x.com", "user@example.com", &[]);
    assert!(matches_filter(&email, &to_filter("*@example.com")));
}

#[test]
fn to_filter_matches_cc() {
    let email = make_email_with_to("sender@x.com", "other@x.com", &["user@example.com"]);
    assert!(matches_filter(&email, &to_filter("*@example.com")));
}

#[test]
fn to_filter_case_insensitive() {
    let email = make_email_with_to("sender@x.com", "USER@EXAMPLE.COM", &[]);
    assert!(matches_filter(&email, &to_filter("*@example.com")));
}


#[test]
fn calendar_filter_matches_has_calendar() {
    let mut email = make_email("sender@x.com", "Invite");
    email.has_calendar = true;
    let filter = SplitFilter {
        filter_type: FilterType::Calendar,
        pattern: String::new(),
        name: None,
    };
    assert!(matches_filter(&email, &filter));
}

#[test]
fn calendar_filter_no_match_without_calendar() {
    let email = make_email("sender@x.com", "Invite");
    let filter = SplitFilter {
        filter_type: FilterType::Calendar,
        pattern: String::new(),
        name: None,
    };
    assert!(!matches_filter(&email, &filter));
}


#[test]
fn header_filter_matches_has_calendar() {
    let mut email = make_email("sender@x.com", "Invite");
    email.has_calendar = true;
    let filter = SplitFilter {
        filter_type: FilterType::Header,
        pattern: "calendar".into(),
        name: Some("Content-Type".into()),
    };
    assert!(matches_filter(&email, &filter));
}


#[test]
fn matches_split_any_mode() {
    let email = make_email("user@calendar.google.com", "Something");
    let split = SplitInbox {
        id: "cal".into(),
        name: "Calendar".into(),
        icon: None,
        filters: vec![
            from_filter("*@calendar.google.com"),
            subject_filter("nonexistent-pattern"),
        ],
        match_mode: MatchMode::Any,
    };
    assert!(matches_split(&email, &split));
}

#[test]
fn matches_split_all_mode_requires_all() {
    let email = make_email("user@calendar.google.com", "Something");
    let split = SplitInbox {
        id: "cal".into(),
        name: "Calendar".into(),
        icon: None,
        filters: vec![
            from_filter("*@calendar.google.com"),
            subject_filter("nonexistent-pattern"),
        ],
        match_mode: MatchMode::All,
    };
    assert!(!matches_split(&email, &split));
}


#[test]
fn filter_by_split_returns_matching() {
    let emails = vec![
        make_email("user@calendar.google.com", "Invite"),
        make_email("friend@gmail.com", "Hello"),
    ];
    let config = SplitsConfig {
        splits: vec![SplitInbox {
            id: "cal".into(),
            name: "Calendar".into(),
            icon: None,
            filters: vec![from_filter("*@calendar.google.com")],
            match_mode: MatchMode::Any,
        }],
    };
    let result = filter_by_split(emails, "cal", &config);
    assert_eq!(result.len(), 1);
    assert_eq!(result[0].from[0].email, "user@calendar.google.com");
}

#[test]
fn filter_by_split_primary_returns_non_matching() {
    let emails = vec![
        make_email("user@calendar.google.com", "Invite"),
        make_email("friend@gmail.com", "Hello"),
    ];
    let config = SplitsConfig {
        splits: vec![SplitInbox {
            id: "cal".into(),
            name: "Calendar".into(),
            icon: None,
            filters: vec![from_filter("*@calendar.google.com")],
            match_mode: MatchMode::Any,
        }],
    };
    let result = filter_by_split(emails, "primary", &config);
    assert_eq!(result.len(), 1);
    assert_eq!(result[0].from[0].email, "friend@gmail.com");
}


#[test]
fn matches_any_split_true_when_matching() {
    let email = make_email("user@calendar.google.com", "Invite");
    let config = SplitsConfig {
        splits: vec![SplitInbox {
            id: "cal".into(),
            name: "Calendar".into(),
            icon: None,
            filters: vec![from_filter("*@calendar.google.com")],
            match_mode: MatchMode::Any,
        }],
    };
    assert!(matches_any_split(&email, &config));
}

#[test]
fn matches_any_split_false_with_no_splits() {
    let email = make_email("user@example.com", "Test");
    let config = SplitsConfig::default();
    assert!(!matches_any_split(&email, &config));
}


fn make_identity(email: &str) -> Identity {
    Identity {
        id: email.into(),
        email: email.into(),
        name: String::new(),
    }
}

#[test]
fn generate_splits_multiple_domains() {
    let identities = vec![
        make_identity("user@aristoi.ai"),
        make_identity("user@gmail.com"),
        make_identity("user@aristotle.ai"),
    ];
    let config = generate_splits_from_identities(&identities);
    assert_eq!(config.splits.len(), 3);

    // the splits come in the order of their domains
    assert_eq!(config.splits[0].id, "aristoi");
    assert_eq!(config.splits[0].filters[0].pattern, "*@aristoi.ai");
    assert_eq!(config.splits[0].filters[0].filter_type, FilterType::To);

    assert_eq!(config.splits[1].id, "aristotle");
    assert_eq!(config.splits[1].filters[0].pattern, "*@aristotle.ai");

    assert_eq!(config.splits[2].id, "gmail");
    assert_eq!(config.splits[2].filters[0].pattern, "*@gmail.com");
}

#[test]
fn generate_splits_single_domain_returns_empty() {
    let identities = vec![
        make_identity("user@fastmail.com"),
        make_identity("alias@fastmail.com"),
    ];
    let config = generate_splits_from_identities(&identities);
    assert!(config.splits.is_empty());
}

#[test]
fn generate_splits_empty_identities_returns_empty() {
    let config = generate_splits_from_identities(&vec![]);
    assert!(config.splits.is_empty());
}

#[test]
fn generate_splits_deduplicates_domains() {
    let identities = vec![
        make_identity("alice@aristoi.ai"),
        make_identity("bob@aristoi.ai"),
        make_identity("user@gmail.com"),
    ];
    let config = generate_splits_from_identities(&identities);
    assert_eq!(config.splits.len(), 2);
    assert_eq!(config.splits[0].id, "aristoi");
    assert_eq!(config.splits[1].id, "gmail");
}

#[test]
fn generate_splits_case_insensitive_domains() {
    let identities = vec![
        make_identity("user@Aristoi.AI"),
        make_identity("user@Gmail.Com"),
    ];
    let config = generate_splits_from_identities(&identities);
    assert_eq!(config.splits.len(), 2);
    assert_eq!(config.splits[0].filters[0].pattern, "*@aristoi.ai");
    assert_eq!(config.splits[1].filters[0].pattern, "*@gmail.com");
}

#[test]
fn generate_splits_conflicting_short_names_uses_full_domain() {
    let identities = vec![
        make_identity("user@aristoi.ai"),
        make_identity("user@aristoi.com"),
        make_identity("user@gmail.com"),
    ];
    let config = generate_splits_from_identities(&identities);
    assert_eq!(config.splits.len(), 3);
    // All should use full domain since "aristoi" collides
    assert_eq!(config.splits[0].id, "aristoi-ai");
    assert_eq!(config.splits[0].name, "aristoi.ai");
    assert_eq!(config.splits[1].id, "aristoi-com");
    assert_eq!(config.splits[2].id, "gmail-com");
}

#[test]
fn generate_splits_skips_malformed_email() {
    let identities = vec![
        make_identity("localonly"),
        make_identity("user@aristoi.ai"),
        make_identity("user@gmail.com"),
    ];
    let config = generate_splits_from_identities(&identities);
    assert_eq!(config.splits.len(), 2);
}


fn custom_config() -> SplitsConfig {
    SplitsConfig {
        splits: vec![SplitInbox {
            id: "custom".into(),
            name: "Custom".into(),
            icon: None,
            filters: vec![from_filter("*@example.com")],
            match_mode: MatchMode::Any,
        }],
    }
}

#[test]
fn seed_creates_splits_when_no_config() {
    let identities = vec![
        make_identity("user@aristoi.ai"),
        make_identity("user@gmail.com"),
    ];
    let result = seed_from_identities(&identities, &SplitsConfig::default());
    assert!(result.is_some());
    assert_eq!(result.unwrap().splits.len(), 2);
}

#[test]
fn seed_skips_when_splits_exist() {
    let identities = vec![
        make_identity("user@aristoi.ai"),
        make_identity("user@gmail.com"),
    ];
    let result = seed_from_identities(&identities, &custom_config());
    assert!(result.is_none());
}

#[test]
fn seed_skips_single_domain() {
    let identities = vec![make_identity("user@fastmail.com")];
    let result = seed_from_identities(&identities, &SplitsConfig::default());
    assert!(result.is_none());
}

#[test]
fn generated_split_in_full() {
    let identities = vec![make_identity("a@B.example"), make_identity("a@a.example@ignored")];
    let config = generate_splits_from_identities(&identities);
    assert_eq!(config.splits.len(), 2);
    let first = &config.splits[0];
    assert_eq!(first.id, "a");
    assert_eq!(first.name, "a");
    assert!(first.icon.is_none());
    assert_eq!(first.match_mode, MatchMode::Any);
    assert_eq!(first.filters.len(), 1);
    assert_eq!(first.filters[0].filter_type, FilterType::To);
    assert_eq!(first.filters[0].pattern, "*@a.example");
    assert!(first.filters[0].name.is_none());
    assert_eq!(config.splits[1].id, "b");
    assert_eq!(config.splits[1].filters[0].pattern, "*@b.example");
}

#[test]
fn generated_splits_are_in_order_and_distinct() {
    let identities = vec![
        make_identity("u@zeta.org"),
        make_identity("u@alpha.org"),
        make_identity("u@Zeta.org"),
        make_identity("u@alpha.org.uk"),
        make_identity("u@alph"),
        make_identity("u@"),
    ];
    let config = generate_splits_from_identities(&identities);
    let ids: Vec<&str> = config.splits.iter().map(|s| s.id.as_str()).collect();
    assert_eq!(ids, vec!["", "alph", "alpha-org", "alpha-org-uk", "zeta-org"]);
    let names: Vec<&str> = config.splits.iter().map(|s| s.name.as_str()).collect();
    assert_eq!(names, vec!["", "alph", "alpha.org", "alpha.org.uk", "zeta.org"]);
}

#[test]
fn order_of_texts() {
    let c = |s: &str| s.chars().collect::<Vec<char>>();
    assert!(is_text_before(&c(""), &c("a")));
    assert!(!is_text_before(&c(""), &c("")));
    assert!(!is_text_before(&c("a"), &c("")));
    assert!(is_text_before(&c("a"), &c("ab")));
    assert!(is_text_before(&c("ab"), &c("b")));
    assert!(!is_text_before(&c("b"), &c("ab")));
    assert!(!is_text_before(&c("same"), &c("same")));
    assert!(is_text_before(&c("Z"), &c("a")));
    assert!(is_text_before(&c("z"), &c("é")));
    for (a, b) in [("abc", "abd"), ("x", "é"), ("é", "日"), ("", "x"), ("a-b", "a.b")] {
        assert_eq!(is_text_before(&c(a), &c(b)), a < b);
        assert_eq!(is_text_before(&c(b), &c(a)), b < a);
    }
}

#[test]
fn split_without_clauses_never_matches() {
    let email = make_email("user@calendar.google.com", "Something");
    for match_mode in [MatchMode::Any, MatchMode::All] {
        let split = SplitInbox {
            id: "empty".into(),
            name: "Empty".into(),
            icon: None,
            filters: vec![],
            match_mode,
        };
        assert!(!matches_split(&email, &split));
    }
}

#[test]
fn any_and_all_on_the_same_clauses() {
    let email = make_email("user@calendar.google.com", "Something");
    let clauses = || vec![subject_filter("nonexistent-pattern"), from_filter("*@calendar.google.com")];
    let rule = |match_mode| SplitInbox {
        id: "r".into(),
        name: "R".into(),
        icon: None,
        filters: clauses(),
        match_mode,
    };
    assert!(matches_split(&email, &rule(MatchMode::Any)));
    assert!(!matches_split(&email, &rule(MatchMode::All)));
    let both = SplitInbox {
        filters: vec![from_filter("user@*"), from_filter("*@calendar.google.com")],
        ..rule(MatchMode::All)
    };
    assert!(matches_split(&email, &both));
}

#[test]
fn subject_clause_decisions() {
    assert!(decide_subject(Some(true), "x", "y"));
    assert!(!decide_subject(Some(false), "same", "same"));
    assert!(decide_subject(None, "[BRACKET", "Test [bracket] text"));
    assert!(!decide_subject(None, "[bracket", "Test bracket text"));
    assert!(decide_subject(None, "ÄRGER", "kein ärger"));
    assert!(decide_subject(None, "", "anything"));
}

#[test]
fn subject_clause_is_a_regular_expression() {
    let email = make_email("sender@example.com", "Order #12345 shipped");
    assert!(matches_filter(&email, &subject_filter(r"order #\d+")));
    assert!(matches_filter(&email, &subject_filter("^ORDER")));
    assert!(!matches_filter(&email, &subject_filter("^shipped")));
    assert!(!matches_filter(&email, &subject_filter("order.shipped")));
}

#[test]
fn filter_by_split_unknown_id_returns_nothing() {
    let emails = vec![make_email("user@calendar.google.com", "Invite")];
    let config = custom_config();
    assert!(filter_by_split(emails, "missing", &config).is_empty());
}

#[test]
fn filter_by_split_keeps_the_order() {
    let emails = vec![
        make_email("a@example.com", "1"),
        make_email("b@other.com", "2"),
        make_email("c@example.com", "3"),
        make_email("d@other.com", "4"),
        make_email("e@example.com", "5"),
    ];
    let config = custom_config();
    let subjects = |list: Vec<Email>| list.into_iter().map(|e| e.subject).collect::<Vec<_>>();
    assert_eq!(subjects(filter_by_split(emails.clone(), "custom", &config)), vec!["1", "3", "5"]);
    assert_eq!(subjects(filter_by_split(emails.clone(), "primary", &config)), vec!["2", "4"]);
    assert_eq!(
        subjects(filter_by_split(emails, "primary", &SplitsConfig::default())),
        vec!["1", "2", "3", "4", "5"]
    );
}

#[test]
fn filter_by_split_takes_the_first_split_with_the_id() {
    let mut config = custom_config();
    config.splits.push(SplitInbox {
        id: "custom".into(),
        name: "Second".into(),
        icon: None,
        filters: vec![from_filter("*@other.com")],
        match_mode: MatchMode::Any,
    });
    let emails = vec![make_email("a@example.com", "1"), make_email("b@other.com", "2")];
    let kept = filter_by_split(emails.clone(), "custom", &config);
    assert_eq!(kept.len(), 1);
    assert_eq!(kept[0].subject, "1");
    assert!(filter_by_split(emails, "primary", &config).is_empty());
}
