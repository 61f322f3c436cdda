use imap_core::list::{
    derive_list_policy, is_separator_query, list, lsub_policy, prefix_patterns,
    separator_list_item, ListConfig, ListError, ReturnOption, SelectionOption, StatusItem,
};
use imap_core::namespace::{AccountView, Attribute, MailboxEntry, SpecialUse};
use imap_core::pattern::matches_pattern;

fn entry(name: &str, id: u32, subscribed: bool, children: bool) -> MailboxEntry {
    MailboxEntry {
        name: name.as_bytes().to_vec(),
        mailbox_id: id,
        is_subscribed: subscribed,
        has_children: children,
        special_use: None,
    }
}

fn config() -> ListConfig {
    ListConfig {
        name_all_enabled: false,
        name_all: b"All Mail".to_vec(),
        name_shared: b"Shared Folders".to_vec(),
    }
}

fn pats(ps: &[&str]) -> Vec<Vec<u8>> {
    ps.iter().map(|p| p.as_bytes().to_vec()).collect()
}

#[test]
fn pattern_level_wildcard_stays_in_level() {
    assert!(matches_pattern(&pats(&["%"]), b"Inbox"));
    assert!(!matches_pattern(&pats(&["%"]), b"Inbox/Sub"));
    assert!(matches_pattern(&pats(&["*"]), b"Inbox"));
    assert!(matches_pattern(&pats(&["*"]), b"Inbox/Sub"));
    assert!(matches_pattern(&pats(&["Inbox/%"]), b"Inbox/Sub"));
    assert!(!matches_pattern(&pats(&["Inbox/%"]), b"Inbox/Sub/Deep"));
}

#[test]
fn pattern_literals_and_lists() {
    assert!(matches_pattern(&pats(&[]), b"anything"));
    assert!(matches_pattern(&pats(&["Inbox"]), b"Inbox"));
    assert!(!matches_pattern(&pats(&["Inbox"]), b"Inbo"));
    assert!(!matches_pattern(&pats(&["Inbox"]), b"Inboxx"));
    assert!(matches_pattern(&pats(&["Drafts", "Inbox*"]), b"Inbox/Work"));
    assert!(!matches_pattern(&pats(&["Drafts", "Sent"]), b"Inbox"));
    assert!(matches_pattern(&pats(&["a/*/b"]), b"a/b/c/a/b"));
    assert!(matches_pattern(&pats(&["*ab"]), b"aab"));
}

#[test]
fn separator_query_reply() {
    assert!(is_separator_query(b"", &pats(&[""])));
    assert!(!is_separator_query(b"", &pats(&["%"])));
    assert!(!is_separator_query(b"ref", &pats(&[""])));
    let item = separator_list_item();
    assert!(item.mailbox_name.is_empty());
    assert_eq!(item.attributes, vec![Attribute::NoSelect]);
    assert!(!item.child_info_subscribed);
}

#[test]
fn recursive_match_needs_subscribed() {
    let r = derive_list_policy(&vec![SelectionOption::RecursiveMatch], &vec![], false);
    assert_eq!(r.err(), Some(ListError::RecursiveMatchAlone));
    assert_eq!(
        ListError::RecursiveMatchAlone.message(),
        "RECURSIVEMATCH cannot be the only selection option."
    );
    let ok = derive_list_policy(
        &vec![SelectionOption::RecursiveMatch, SelectionOption::Subscribed],
        &vec![],
        false,
    );
    assert!(ok.is_ok());
}

#[test]
fn policy_derivation() {
    let p = derive_list_policy(
        &vec![SelectionOption::Subscribed],
        &vec![ReturnOption::Children, ReturnOption::Status(vec![StatusItem::Messages])],
        false,
    )
    .unwrap();
    assert!(p.filter_subscribed);
    assert!(p.include_subscribed);
    assert!(p.include_children);
    assert!(!p.include_special_use);
    assert_eq!(p.include_status, Some(vec![StatusItem::Messages]));

    let p2 = derive_list_policy(&vec![], &vec![], true).unwrap();
    assert!(p2.include_special_use);
    assert!(!p2.filter_subscribed);
    assert!(p2.include_status.is_none());
}

#[test]
fn lsub_policy_shape() {
    let p = lsub_policy();
    assert!(p.filter_subscribed);
    assert!(!p.include_subscribed);
    assert!(!p.include_children);
}

#[test]
fn reference_name_prefixes_patterns() {
    let r = prefix_patterns(b"Shared/", &pats(&["Inbox", "%"]));
    assert_eq!(r, pats(&["Shared/Inbox", "Shared/%"]));
    let r2 = prefix_patterns(b"", &pats(&["Inbox"]));
    assert_eq!(r2, pats(&["Inbox"]));
}

#[test]
fn list_subscribed_recursive() {
    let ns = vec![AccountView {
        account_id: 1,
        prefix: None,
        mailboxes: vec![
            entry("Inbox", 1, false, true),
            entry("Inbox/Work", 2, true, false),
        ],
    }];
    let p = derive_list_policy(
        &vec![SelectionOption::Subscribed, SelectionOption::RecursiveMatch],
        &vec![],
        false,
    )
    .unwrap();
    let items = list(&ns, &config(), &p, &pats(&["Inbox*"]));
    assert_eq!(items.len(), 2);
    assert_eq!(items[0].mailbox_name, b"Inbox".to_vec());
    assert_eq!(items[0].attributes, Vec::<Attribute>::new());
    assert!(items[0].child_info_subscribed);
    assert_eq!(items[1].mailbox_name, b"Inbox/Work".to_vec());
    assert_eq!(items[1].attributes, vec![Attribute::Subscribed]);
    assert!(!items[1].child_info_subscribed);
}

#[test]
fn list_level_wildcard_hides_children() {
    let ns = vec![AccountView {
        account_id: 1,
        prefix: None,
        mailboxes: vec![entry("A", 1, false, true), entry("A/B", 2, false, false)],
    }];
    let p = derive_list_policy(&vec![], &vec![], false).unwrap();
    let items = list(&ns, &config(), &p, &pats(&["%"]));
    assert_eq!(items.len(), 1);
    assert_eq!(items[0].mailbox_name, b"A".to_vec());
}

#[test]
fn list_children_and_special_use_attributes() {
    let mut drafts = entry("Drafts", 3, true, false);
    drafts.special_use = Some(SpecialUse::Drafts);
    let ns = vec![AccountView {
        account_id: 1,
        prefix: None,
        mailboxes: vec![entry("Inbox", 1, true, true), drafts],
    }];
    let p = derive_list_policy(
        &vec![],
        &vec![ReturnOption::Children, ReturnOption::Subscribed],
        true,
    )
    .unwrap();
    let items = list(&ns, &config(), &p, &pats(&["*"]));
    assert_eq!(items.len(), 2);
    assert_eq!(
        items[0].attributes,
        vec![Attribute::HasChildren, Attribute::Subscribed]
    );
    assert_eq!(
        items[1].attributes,
        vec![Attribute::HasNoChildren, Attribute::Subscribed, Attribute::Drafts]
    );
}

#[test]
fn list_special_use_filter_skips_plain_mailboxes() {
    let mut sent = entry("Sent", 2, false, false);
    sent.special_use = Some(SpecialUse::Sent);
    let ns = vec![AccountView {
        account_id: 1,
        prefix: None,
        mailboxes: vec![entry("Inbox", 1, false, false), sent],
    }];
    let p = derive_list_policy(&vec![SelectionOption::SpecialUse], &vec![], false).unwrap();
    let items = list(&ns, &config(), &p, &pats(&["*"]));
    assert_eq!(items.len(), 1);
    assert_eq!(items[0].mailbox_name, b"Sent".to_vec());
    assert_eq!(items[0].attributes, vec![Attribute::Sent]);
}

#[test]
fn list_shared_folder_roots() {
    let ns = vec![
        AccountView {
            account_id: 1,
            prefix: None,
            mailboxes: vec![entry("Inbox", 1, true, false)],
        },
        AccountView {
            account_id: 2,
            prefix: Some(b"Shared Folders/alice".to_vec()),
            mailboxes: vec![entry("Shared Folders/alice/notes", 5, false, false)],
        },
    ];
    let p = derive_list_policy(&vec![], &vec![], false).unwrap();
    let items = list(&ns, &config(), &p, &pats(&["*"]));
    let names: Vec<&[u8]> = items.iter().map(|i| i.mailbox_name.as_slice()).collect();
    assert_eq!(
        names,
        vec![
            b"Inbox".as_slice(),
            b"Shared Folders".as_slice(),
            b"Shared Folders/alice".as_slice(),
            b"Shared Folders/alice/notes".as_slice(),
        ]
    );
    assert_eq!(items[1].attributes, vec![Attribute::NoSelect]);
}

#[test]
fn lsub_lists_subscriptions_without_attributes() {
    let ns = vec![AccountView {
        account_id: 1,
        prefix: None,
        mailboxes: vec![
            entry("Inbox", 1, true, true),
            entry("Inbox/Work", 2, false, false),
        ],
    }];
    let p = lsub_policy();
    let items = list(&ns, &config(), &p, &pats(&["*"]));
    assert_eq!(items.len(), 1);
    assert_eq!(items[0].mailbox_name, b"Inbox".to_vec());
    assert!(items[0].attributes.is_empty());
}

#[test]
fn list_all_mail_virtual_folder() {
    let mut cfg = config();
    cfg.name_all_enabled = true;
    let ns = vec![AccountView {
        account_id: 1,
        prefix: None,
        mailboxes: vec![entry("Inbox", 1, true, false)],
    }];
    let p = derive_list_policy(&vec![], &vec![], false).unwrap();
    let items = list(&ns, &cfg, &p, &pats(&["*"]));
    assert_eq!(items[0].mailbox_name, b"All Mail".to_vec());
    assert_eq!(items[0].attributes, vec![Attribute::All, Attribute::NoInferiors]);
    let filtered = derive_list_policy(&vec![SelectionOption::Subscribed], &vec![], false).unwrap();
    let items2 = list(&ns, &cfg, &filtered, &pats(&["*"]));
    assert_eq!(items2.len(), 1);
    assert_eq!(items2[0].mailbox_name, b"Inbox".to_vec());
}
