//! The LIST/LSUB engine: derives the listing policy from selection and
//! return options, prefixes patterns with the reference name, and
//! enumerates the namespace, synthesizing attributes and the
//! CHILDINFO tag of the recursive-subscription extension.

use vstd::prelude::*;

use crate::bytes::{clone_bytes, concat_bytes, copy_vec};
use crate::namespace::{
    has_subscribed_descendant, find_subscribed_descendant, spec_special_use_attribute,
    special_use_attribute, AccountView, Attribute, MailboxEntry,
};
use crate::pattern::{matches_any, matches_pattern};

verus! {

/// LIST selection options.
#[derive(Clone, Copy, PartialEq, Eq, Structural, Debug)]
pub enum SelectionOption {
    Subscribed,
    Remote,
    SpecialUse,
    RecursiveMatch,
}

/// Items a STATUS return option may request.
#[derive(Clone, Copy, PartialEq, Eq, Structural, Debug)]
pub enum StatusItem {
    Messages,
    UidNext,
    UidValidity,
    Unseen,
    Deleted,
    Size,
    Recent,
    HighestModSeq,
}

/// LIST return options.
#[derive(Debug)]
pub enum ReturnOption {
    Subscribed,
    Children,
    Status(Vec<StatusItem>),
    SpecialUse,
}

/// Derived listing policy.
pub struct ListPolicy {
    pub filter_subscribed: bool,
    pub filter_special_use: bool,
    pub recursive_match: bool,
    pub include_subscribed: bool,
    pub include_children: bool,
    pub include_special_use: bool,
    pub include_status: Option<Vec<StatusItem>>,
}

/// Rejected LIST argument combinations.
#[derive(Clone, Copy, PartialEq, Eq, Structural, Debug)]
pub enum ListError {
    RecursiveMatchAlone,
}

impl ListError {
    /// The text of the tagged BAD reply for this error.
    pub fn message(&self) -> (r: &'static str)
        ensures
            r@ == "RECURSIVEMATCH cannot be the only selection option."@,
    {
        match self {
            ListError::RecursiveMatchAlone => "RECURSIVEMATCH cannot be the only selection option.",
        }
    }
}

pub open spec fn sel_has(s: Seq<SelectionOption>, o: SelectionOption) -> bool {
    exists|i: int| 0 <= i < s.len() && s[i] == o
}

proof fn lemma_sel_has_extend(s: Seq<SelectionOption>, i: int, o: SelectionOption)
    requires
        0 <= i < s.len(),
    ensures
        sel_has(s.take(i + 1), o) == (sel_has(s.take(i), o) || s[i] == o),
{
    assert(s.take(i + 1) =~= s.take(i).push(s[i]));
    if sel_has(s.take(i), o) {
        let w = choose|w: int| 0 <= w < s.take(i).len() && #[trigger] s.take(i)[w] == o;
        assert(s.take(i + 1)[w] == o);
    }
    if s[i] == o {
        assert(s.take(i + 1)[i] == o);
    }
    if sel_has(s.take(i + 1), o) {
        let w = choose|w: int| 0 <= w < s.take(i + 1).len() && #[trigger] s.take(i + 1)[w] == o;
        if w < i {
            assert(s.take(i)[w] == o);
        }
    }
}

pub open spec fn ret_has_subscribed(s: Seq<ReturnOption>) -> bool {
    exists|i: int| 0 <= i < s.len() && s[i] is Subscribed
}

proof fn lemma_ret_has_extend(s: Seq<ReturnOption>, i: int)
    requires
        0 <= i < s.len(),
    ensures
        ret_has_subscribed(s.take(i + 1)) == (ret_has_subscribed(s.take(i)) || s[i] is Subscribed),
        ret_has_children(s.take(i + 1)) == (ret_has_children(s.take(i)) || s[i] is Children),
        ret_has_special_use(s.take(i + 1)) == (ret_has_special_use(s.take(i))
            || s[i] is SpecialUse),
{
    assert(s.take(i + 1) =~= s.take(i).push(s[i]));
    assert(s.take(i + 1)[i] == s[i]);
    assert(forall|w: int| 0 <= w < i ==> s.take(i + 1)[w] == s.take(i)[w]);
    if ret_has_subscribed(s.take(i + 1)) {
        let w = choose|w: int| 0 <= w < s.take(i + 1).len() && #[trigger] s.take(i + 1)[w] is Subscribed;
        if w < i {
            assert(s.take(i)[w] is Subscribed);
        }
    }
    if ret_has_children(s.take(i + 1)) {
        let w = choose|w: int| 0 <= w < s.take(i + 1).len() && #[trigger] s.take(i + 1)[w] is Children;
        if w < i {
            assert(s.take(i)[w] is Children);
        }
    }
    if ret_has_special_use(s.take(i + 1)) {
        let w = choose|w: int| 0 <= w < s.take(i + 1).len() && #[trigger] s.take(i + 1)[w] is SpecialUse;
        if w < i {
            assert(s.take(i)[w] is SpecialUse);
        }
    }
    if ret_has_subscribed(s.take(i)) {
        let w = choose|w: int| 0 <= w < s.take(i).len() && #[trigger] s.take(i)[w] is Subscribed;
        assert(s.take(i + 1)[w] is Subscribed);
    }
    if ret_has_children(s.take(i)) {
        let w = choose|w: int| 0 <= w < s.take(i).len() && #[trigger] s.take(i)[w] is Children;
        assert(s.take(i + 1)[w] is Children);
    }
    if ret_has_special_use(s.take(i)) {
        let w = choose|w: int| 0 <= w < s.take(i).len() && #[trigger] s.take(i)[w] is SpecialUse;
        assert(s.take(i + 1)[w] is SpecialUse);
    }
}

pub open spec fn ret_has_children(s: Seq<ReturnOption>) -> bool {
    exists|i: int| 0 <= i < s.len() && s[i] is Children
}

pub open spec fn ret_has_special_use(s: Seq<ReturnOption>) -> bool {
    exists|i: int| 0 <= i < s.len() && s[i] is SpecialUse
}

/// The items of the last STATUS return option, if any.
pub open spec fn last_status(s: Seq<ReturnOption>) -> Option<Seq<StatusItem>>
    decreases s.len(),
{
    if s.len() == 0 {
        None
    } else {
        match s.last() {
            ReturnOption::Status(items) => Some(items@),
            _ => last_status(s.drop_last()),
        }
    }
}

pub open spec fn status_opt_view(o: Option<Vec<StatusItem>>) -> Option<Seq<StatusItem>> {
    match o {
        Some(v) => Some(v@),
        None => None,
    }
}

/// Derive the listing policy from the request options, as the
/// recursive-subscription extension demands: RECURSIVEMATCH is refused
/// unless SUBSCRIBED is also selected.
pub fn derive_list_policy(
    selection: &Vec<SelectionOption>,
    ret: &Vec<ReturnOption>,
    is_rev2: bool,
) -> (r: Result<ListPolicy, ListError>)
    ensures
        (r is Err) == (sel_has(selection@, SelectionOption::RecursiveMatch) && !sel_has(
            selection@,
            SelectionOption::Subscribed,
        )),
        r matches Err(e) ==> e == ListError::RecursiveMatchAlone,
        r matches Ok(p) ==> {
            &&& p.filter_subscribed == sel_has(selection@, SelectionOption::Subscribed)
            &&& p.filter_special_use == sel_has(selection@, SelectionOption::SpecialUse)
            &&& p.recursive_match == sel_has(selection@, SelectionOption::RecursiveMatch)
            &&& p.include_subscribed == (sel_has(selection@, SelectionOption::Subscribed)
                || ret_has_subscribed(ret@))
            &&& p.include_children == ret_has_children(ret@)
            &&& p.include_special_use == (sel_has(selection@, SelectionOption::SpecialUse)
                || ret_has_special_use(ret@) || is_rev2)
            &&& status_opt_view(p.include_status) == last_status(ret@)
        },
{
    let mut filter_subscribed = false;
    let mut filter_special_use = false;
    let mut recursive_match = false;
    let mut include_subscribed = false;
    let mut include_children = false;
    let mut include_special_use = is_rev2;
    let mut include_status: Option<Vec<StatusItem>> = None;

    let mut i: usize = 0;
    while i < selection.len()
        invariant
            i <= selection@.len(),
            filter_subscribed == sel_has(selection@.take(i as int), SelectionOption::Subscribed),
            filter_special_use == sel_has(selection@.take(i as int), SelectionOption::SpecialUse),
            recursive_match == sel_has(selection@.take(i as int), SelectionOption::RecursiveMatch),
            include_subscribed == filter_subscribed,
            include_special_use == (filter_special_use || is_rev2),
        decreases selection@.len() - i,
    {
        let o = selection[i];
        proof {
            lemma_sel_has_extend(selection@, i as int, SelectionOption::Subscribed);
            lemma_sel_has_extend(selection@, i as int, SelectionOption::SpecialUse);
            lemma_sel_has_extend(selection@, i as int, SelectionOption::RecursiveMatch);
        }
        match o {
            SelectionOption::Subscribed => {
                filter_subscribed = true;
                include_subscribed = true;
            },
            SelectionOption::Remote => (),
            SelectionOption::SpecialUse => {
                filter_special_use = true;
                include_special_use = true;
            },
            SelectionOption::RecursiveMatch => {
                recursive_match = true;
            },
        }
        i = i + 1;
    }
    assert(selection@.take(selection@.len() as int) =~= selection@);

    let mut j: usize = 0;
    while j < ret.len()
        invariant
            j <= ret@.len(),
            filter_subscribed == sel_has(selection@, SelectionOption::Subscribed),
            filter_special_use == sel_has(selection@, SelectionOption::SpecialUse),
            recursive_match == sel_has(selection@, SelectionOption::RecursiveMatch),
            include_subscribed == (filter_subscribed || ret_has_subscribed(ret@.take(j as int))),
            include_children == ret_has_children(ret@.take(j as int)),
            include_special_use == (filter_special_use || ret_has_special_use(ret@.take(j as int))
                || is_rev2),
            status_opt_view(include_status) == last_status(ret@.take(j as int)),
        decreases ret@.len() - j,
    {
        proof {
            lemma_ret_has_extend(ret@, j as int);
        }
        assert(ret@.take(j as int + 1) =~= ret@.take(j as int).push(ret@[j as int]));
        assert(ret@.take(j as int + 1).drop_last() =~= ret@.take(j as int));
        assert(ret@.take(j as int + 1).last() == ret@[j as int]);
        match &ret[j] {
            ReturnOption::Subscribed => {
                include_subscribed = true;
            },
            ReturnOption::Children => {
                include_children = true;
            },
            ReturnOption::Status(items) => {
                include_status = Some(copy_vec(items));
            },
            ReturnOption::SpecialUse => {
                include_special_use = true;
            },
        }
        j = j + 1;
    }
    assert(ret@.take(ret@.len() as int) =~= ret@);

    if recursive_match && !filter_subscribed {
        return Err(ListError::RecursiveMatchAlone);
    }
    Ok(
        ListPolicy {
            filter_subscribed,
            filter_special_use,
            recursive_match,
            include_subscribed,
            include_children,
            include_special_use,
            include_status,
        },
    )
}

/// The LSUB policy of the legacy listing command: subscription filter
/// on, no subscription or child attributes.
pub fn lsub_policy() -> (r: ListPolicy)
    ensures
        r.filter_subscribed,
        !r.filter_special_use,
        !r.recursive_match,
        !r.include_subscribed,
        !r.include_children,
        !r.include_special_use,
        r.include_status is None,
{
    ListPolicy {
        filter_subscribed: true,
        filter_special_use: false,
        recursive_match: false,
        include_subscribed: false,
        include_children: false,
        include_special_use: false,
        include_status: None,
    }
}

/// Prefix every pattern with the reference name; an empty reference
/// leaves the patterns as they are.
pub fn prefix_patterns(reference_name: &[u8], patterns: &Vec<Vec<u8>>) -> (r: Vec<Vec<u8>>)
    ensures
        r.deep_view().len() == patterns.deep_view().len(),
        forall|i: int|
            0 <= i < patterns.deep_view().len() ==> r.deep_view()[i] == (if reference_name@.len()
                > 0 {
                reference_name@ + patterns.deep_view()[i]
            } else {
                patterns.deep_view()[i]
            }),
{
    let mut r: Vec<Vec<u8>> = Vec::new();
    let mut i: usize = 0;
    while i < patterns.len()
        invariant
            i <= patterns@.len(),
            r.deep_view().len() == i,
            forall|k: int|
                0 <= k < i ==> r.deep_view()[k] == (if reference_name@.len() > 0 {
                    reference_name@ + patterns.deep_view()[k]
                } else {
                    patterns.deep_view()[k]
                }),
        decreases patterns@.len() - i,
    {
        let p = if reference_name.len() > 0 {
            concat_bytes(reference_name, patterns[i].as_slice())
        } else {
            clone_bytes(&patterns[i])
        };
        let ghost old_dv = r.deep_view();
        r.push(p);
        assert(r.deep_view() =~~= old_dv.push(p@));
        i = i + 1;
    }
    r
}

/// A separator query asks for the hierarchy delimiter alone: an empty
/// reference with a single empty pattern.
pub fn is_separator_query(reference_name: &[u8], patterns: &Vec<Vec<u8>>) -> (r: bool)
    ensures
        r == (reference_name@.len() == 0 && patterns@.len() == 1 && patterns.deep_view()[0].len()
            == 0),
{
    reference_name.len() == 0 && patterns.len() == 1 && patterns[0].len() == 0
}

/// One emitted LIST line.
pub struct ListItem {
    pub mailbox_name: Vec<u8>,
    pub attributes: Vec<Attribute>,
    pub child_info_subscribed: bool,
}

/// Mathematical image of a LIST line.
pub ghost struct ListItemV {
    pub mailbox_name: Seq<u8>,
    pub attributes: Seq<Attribute>,
    pub child_info_subscribed: bool,
}

impl View for ListItem {
    type V = ListItemV;

    open spec fn view(&self) -> ListItemV {
        ListItemV {
            mailbox_name: self.mailbox_name@,
            attributes: self.attributes@,
            child_info_subscribed: self.child_info_subscribed,
        }
    }
}

pub open spec fn views_of(s: Seq<ListItem>) -> Seq<ListItemV> {
    s.map_values(|it: ListItem| it@)
}

proof fn lemma_views_push(s: Seq<ListItem>, it: ListItem)
    ensures
        views_of(s.push(it)) == views_of(s).push(it@),
{
    assert(views_of(s.push(it)) =~= views_of(s).push(it@));
}

/// The reply to a separator query: one line with an empty name and the
/// NoSelect attribute.
pub fn separator_list_item() -> (r: ListItem)
    ensures
        r@.mailbox_name.len() == 0,
        r@.attributes =~= seq![Attribute::NoSelect],
        !r@.child_info_subscribed,
{
    ListItem {
        mailbox_name: Vec::new(),
        attributes: vec![Attribute::NoSelect],
        child_info_subscribed: false,
    }
}

/// Server-side names of the virtual folders.
pub struct ListConfig {
    pub name_all_enabled: bool,
    pub name_all: Vec<u8>,
    pub name_shared: Vec<u8>,
}

/// Attributes of a listed mailbox under a policy.
pub open spec fn expected_attributes(p: ListPolicy, e: MailboxEntry) -> Seq<Attribute> {
    (if p.include_children {
        if e.has_children {
            seq![Attribute::HasChildren]
        } else {
            seq![Attribute::HasNoChildren]
        }
    } else {
        Seq::empty()
    }) + (if p.include_subscribed && e.is_subscribed {
        seq![Attribute::Subscribed]
    } else {
        Seq::empty()
    }) + (if p.include_special_use {
        match e.special_use {
            Some(su) => seq![spec_special_use_attribute(su)],
            None => Seq::empty(),
        }
    } else {
        Seq::empty()
    })
}

/// Build the attribute list of a mailbox.
pub fn synthesize_attributes(p: &ListPolicy, e: &MailboxEntry) -> (r: Vec<Attribute>)
    ensures
        r@ == expected_attributes(*p, *e),
{
    let mut attrs: Vec<Attribute> = Vec::new();
    if p.include_children {
        attrs.push(
            if e.has_children {
                Attribute::HasChildren
            } else {
                Attribute::HasNoChildren
            },
        );
    }
    if p.include_subscribed && e.is_subscribed {
        attrs.push(Attribute::Subscribed);
    }
    if p.include_special_use {
        if let Some(su) = &e.special_use {
            attrs.push(special_use_attribute(*su));
        }
    }
    assert(attrs@ =~= expected_attributes(*p, *e));
    attrs
}

/// What the engine emits for mailbox `j` of an account: nothing, or a
/// single line.
pub open spec fn mailbox_emit(a: AccountView, j: int, p: ListPolicy, pats: Seq<Seq<u8>>) -> Seq<
    ListItemV,
> {
    let e = a.mailboxes@[j];
    if matches_any(pats, e.name@) {
        let hrm = p.recursive_match && has_subscribed_descendant(a, e.name@);
        if !p.filter_subscribed || e.is_subscribed || hrm {
            if p.include_special_use && p.filter_special_use && e.special_use is None {
                Seq::empty()
            } else {
                seq![
                    ListItemV {
                        mailbox_name: e.name@,
                        attributes: expected_attributes(p, e),
                        child_info_subscribed: hrm,
                    },
                ]
            }
        } else {
            Seq::empty()
        }
    } else {
        Seq::empty()
    }
}

/// The lines emitted for the first `j` mailboxes of an account.
pub open spec fn account_items_upto(a: AccountView, j: int, p: ListPolicy, pats: Seq<Seq<u8>>) -> Seq<
    ListItemV,
>
    decreases j,
{
    if j <= 0 {
        Seq::empty()
    } else {
        account_items_upto(a, j - 1, p, pats) + mailbox_emit(a, j - 1, p, pats)
    }
}

pub open spec fn account_items(a: AccountView, p: ListPolicy, pats: Seq<Seq<u8>>) -> Seq<ListItemV> {
    account_items_upto(a, a.mailboxes@.len() as int, p, pats)
}

/// Attributes of the synthesized shared-folder roots.
pub open spec fn synthesized_attributes(p: ListPolicy) -> Seq<Attribute> {
    if p.include_children {
        seq![Attribute::HasChildren, Attribute::NoSelect]
    } else {
        seq![Attribute::NoSelect]
    }
}

pub open spec fn synth_item(name: Seq<u8>, p: ListPolicy) -> ListItemV {
    ListItemV {
        mailbox_name: name,
        attributes: synthesized_attributes(p),
        child_info_subscribed: false,
    }
}

/// Lines synthesized ahead of a shared account: the shared-folder root
/// on the first prefixed account, then the account's own prefix.
pub open spec fn shared_root_items(
    a: AccountView,
    first_prefixed: bool,
    cfg: ListConfig,
    p: ListPolicy,
    pats: Seq<Seq<u8>>,
) -> Seq<ListItemV> {
    match a.prefix {
        Some(pref) => (if first_prefixed && !p.filter_subscribed && matches_any(
            pats,
            cfg.name_shared@,
        ) {
            seq![synth_item(cfg.name_shared@, p)]
        } else {
            Seq::empty()
        }) + (if !p.filter_subscribed && matches_any(pats, pref@) {
            seq![synth_item(pref@, p)]
        } else {
            Seq::empty()
        }),
        None => Seq::empty(),
    }
}

pub open spec fn seen_prefixed_upto(ns: Seq<AccountView>, k: int) -> bool {
    exists|i: int| 0 <= i < k && ns[i].prefix is Some
}

/// The lines emitted for the first `k` accounts of the namespace.
pub open spec fn namespace_items_upto(
    ns: Seq<AccountView>,
    k: int,
    cfg: ListConfig,
    p: ListPolicy,
    pats: Seq<Seq<u8>>,
) -> Seq<ListItemV>
    decreases k,
{
    if k <= 0 {
        Seq::empty()
    } else {
        namespace_items_upto(ns, k - 1, cfg, p, pats) + shared_root_items(
            ns[k - 1],
            !seen_prefixed_upto(ns, k - 1),
            cfg,
            p,
            pats,
        ) + account_items(ns[k - 1], p, pats)
    }
}

/// The virtual all-mail line, when enabled and matched.
pub open spec fn all_mail_items(cfg: ListConfig, p: ListPolicy, pats: Seq<Seq<u8>>) -> Seq<
    ListItemV,
> {
    if cfg.name_all_enabled && !p.filter_subscribed && matches_any(pats, cfg.name_all@) {
        seq![
            ListItemV {
                mailbox_name: cfg.name_all@,
                attributes: seq![Attribute::All, Attribute::NoInferiors],
                child_info_subscribed: false,
            },
        ]
    } else {
        Seq::empty()
    }
}

/// Every line a LIST of the whole namespace emits, in order.
pub open spec fn list_spec(
    ns: Seq<AccountView>,
    cfg: ListConfig,
    p: ListPolicy,
    pats: Seq<Seq<u8>>,
) -> Seq<ListItemV> {
    all_mail_items(cfg, p, pats) + namespace_items_upto(ns, ns.len() as int, cfg, p, pats)
}

/// Enumerate the namespace under the derived policy against the
/// (already prefixed) pattern list.
pub fn list(
    ns: &Vec<AccountView>,
    cfg: &ListConfig,
    p: &ListPolicy,
    patterns: &Vec<Vec<u8>>,
) -> (r: Vec<ListItem>)
    ensures
        views_of(r@) == list_spec(ns@, *cfg, *p, patterns.deep_view()),
{
    let ghost pats = patterns.deep_view();
    let mut items: Vec<ListItem> = Vec::new();

    if cfg.name_all_enabled && !p.filter_subscribed && matches_pattern(
        patterns,
        cfg.name_all.as_slice(),
    ) {
        let it = ListItem {
            mailbox_name: clone_bytes(&cfg.name_all),
            attributes: vec![Attribute::All, Attribute::NoInferiors],
            child_info_subscribed: false,
        };
        proof {
            lemma_views_push(items@, it);
        }
        items.push(it);
    }
    assert(views_of(items@) =~= all_mail_items(*cfg, *p, pats));

    let mut seen_prefixed = false;
    let mut k: usize = 0;
    while k < ns.len()
        invariant
            k <= ns@.len(),
            seen_prefixed == seen_prefixed_upto(ns@, k as int),
            pats == patterns.deep_view(),
            views_of(items@) == all_mail_items(*cfg, *p, pats) + namespace_items_upto(
                ns@,
                k as int,
                *cfg,
                *p,
                pats,
            ),
        decreases ns@.len() - k,
    {
        let acct = &ns[k];
        let ghost base = views_of(items@);
        let ghost first_prefixed = !seen_prefixed;

        if let Some(pref) = &acct.prefix {
            if !seen_prefixed {
                if !p.filter_subscribed && matches_pattern(patterns, cfg.name_shared.as_slice()) {
                    let it = ListItem {
                        mailbox_name: clone_bytes(&cfg.name_shared),
                        attributes: synthesized_attrs_exec(p),
                        child_info_subscribed: false,
                    };
                    proof {
                        lemma_views_push(items@, it);
                    }
                    items.push(it);
                }
            }
            if !p.filter_subscribed && matches_pattern(patterns, pref.as_slice()) {
                let it = ListItem {
                    mailbox_name: clone_bytes(pref),
                    attributes: synthesized_attrs_exec(p),
                    child_info_subscribed: false,
                };
                proof {
                    lemma_views_push(items@, it);
                }
                items.push(it);
            }
            seen_prefixed = true;
        }
        assert(views_of(items@) =~= base + shared_root_items(
            ns@[k as int],
            first_prefixed,
            *cfg,
            *p,
            pats,
        ));
        assert(seen_prefixed == seen_prefixed_upto(ns@, k as int + 1)) by {
            if acct.prefix is Some {
                assert(ns@[k as int].prefix is Some);
            }
        }

        let ghost base2 = views_of(items@);
        let mut j: usize = 0;
        while j < acct.mailboxes.len()
            invariant
                j <= acct.mailboxes@.len(),
                pats == patterns.deep_view(),
                acct == &ns@[k as int],
                k < ns@.len(),
                views_of(items@) == base2 + account_items_upto(*acct, j as int, *p, pats),
            decreases acct.mailboxes@.len() - j,
        {
            let m = &acct.mailboxes[j];
            if matches_pattern(patterns, m.name.as_slice()) {
                let hrm = if p.recursive_match {
                    find_subscribed_descendant(acct, m.name.as_slice())
                } else {
                    false
                };
                if !p.filter_subscribed || m.is_subscribed || hrm {
                    let skip = p.include_special_use && p.filter_special_use
                        && m.special_use.is_none();
                    if !skip {
                        let it = ListItem {
                            mailbox_name: clone_bytes(&m.name),
                            attributes: synthesize_attributes(p, m),
                            child_info_subscribed: hrm,
                        };
                        proof {
                            lemma_views_push(items@, it);
                        }
                        items.push(it);
                    }
                }
            }
            assert(views_of(items@) =~= base2 + account_items_upto(*acct, j as int + 1, *p, pats));
            j = j + 1;
        }
        assert(account_items_upto(*acct, acct.mailboxes@.len() as int, *p, pats) == account_items(
            *acct,
            *p,
            pats,
        ));
        assert(views_of(items@) =~= all_mail_items(*cfg, *p, pats) + namespace_items_upto(
            ns@,
            k as int + 1,
            *cfg,
            *p,
            pats,
        ));
        k = k + 1;
    }
    items
}

/// A line is justified under a subscription filter: its mailbox is
/// subscribed, or the recursive-match option found a subscribed
/// mailbox below it and the line carries the CHILDINFO tag.
pub open spec fn subscription_justified(a: AccountView, p: ListPolicy, it: ListItemV) -> bool {
    ||| exists|j: int|
        0 <= j < a.mailboxes@.len() && #[trigger] a.mailboxes@[j].name@ == it.mailbox_name
            && a.mailboxes@[j].is_subscribed
    ||| (p.recursive_match && has_subscribed_descendant(a, it.mailbox_name)
        && it.child_info_subscribed)
}

/// The CHILDINFO tag is sound: it stands only where a subscribed
/// mailbox lies strictly below the listed name.
pub open spec fn childinfo_sound(a: AccountView, p: ListPolicy, it: ListItemV) -> bool {
    it.child_info_subscribed ==> (p.recursive_match && has_subscribed_descendant(
        a,
        it.mailbox_name,
    ))
}

proof fn lemma_account_upto_subscription(
    a: AccountView,
    p: ListPolicy,
    pats: Seq<Seq<u8>>,
    j: int,
    k: int,
)
    requires
        p.filter_subscribed,
        0 <= j <= a.mailboxes@.len(),
        0 <= k < account_items_upto(a, j, p, pats).len(),
    ensures
        subscription_justified(a, p, account_items_upto(a, j, p, pats)[k]),
        childinfo_sound(a, p, account_items_upto(a, j, p, pats)[k]),
    decreases j,
{
    let pre = account_items_upto(a, j - 1, p, pats);
    let emit = mailbox_emit(a, j - 1, p, pats);
    if k < pre.len() {
        lemma_account_upto_subscription(a, p, pats, j - 1, k);
        assert(account_items_upto(a, j, p, pats)[k] == pre[k]);
    } else {
        let e = a.mailboxes@[j - 1];
        let it = account_items_upto(a, j, p, pats)[k];
        assert(it == emit[k - pre.len()]);
        assert(emit.len() > 0);
        assert(it == emit[0]);
        if e.is_subscribed {
            assert(a.mailboxes@[j - 1].name@ == it.mailbox_name && a.mailboxes@[j
                - 1].is_subscribed);
        }
    }
}

proof fn lemma_namespace_upto_subscription(
    ns: Seq<AccountView>,
    cfg: ListConfig,
    p: ListPolicy,
    pats: Seq<Seq<u8>>,
    n: int,
    k: int,
)
    requires
        p.filter_subscribed,
        0 <= n <= ns.len(),
        0 <= k < namespace_items_upto(ns, n, cfg, p, pats).len(),
    ensures
        exists|a: int|
            0 <= a < ns.len() && #[trigger] subscription_justified(
                ns[a],
                p,
                namespace_items_upto(ns, n, cfg, p, pats)[k],
            ) && childinfo_sound(ns[a], p, namespace_items_upto(ns, n, cfg, p, pats)[k]),
    decreases n,
{
    let pre = namespace_items_upto(ns, n - 1, cfg, p, pats);
    if k < pre.len() {
        lemma_namespace_upto_subscription(ns, cfg, p, pats, n - 1, k);
        assert(namespace_items_upto(ns, n, cfg, p, pats)[k] == pre[k]);
    } else {
        let a = ns[n - 1];
        let shared = shared_root_items(a, !seen_prefixed_upto(ns, n - 1), cfg, p, pats);
        assert(shared =~= Seq::<ListItemV>::empty());
        let acc = account_items(a, p, pats);
        let it = namespace_items_upto(ns, n, cfg, p, pats)[k];
        assert(it == acc[k - pre.len()]);
        lemma_account_upto_subscription(a, p, pats, a.mailboxes@.len() as int, k - pre.len());
        assert(subscription_justified(ns[n - 1], p, it) && childinfo_sound(ns[n - 1], p, it));
    }
}

/// Under a subscription filter every emitted line names a subscribed
/// mailbox of some account, or — with the recursive-match option — a
/// mailbox with a subscribed descendant, and then the line carries the
/// CHILDINFO tag; the tag is never attached without such a descendant.
pub proof fn lemma_list_respects_subscription(
    ns: Seq<AccountView>,
    cfg: ListConfig,
    p: ListPolicy,
    pats: Seq<Seq<u8>>,
    k: int,
)
    requires
        p.filter_subscribed,
        0 <= k < list_spec(ns, cfg, p, pats).len(),
    ensures
        exists|a: int|
            0 <= a < ns.len() && #[trigger] subscription_justified(
                ns[a],
                p,
                list_spec(ns, cfg, p, pats)[k],
            ) && childinfo_sound(ns[a], p, list_spec(ns, cfg, p, pats)[k]),
{
    assert(all_mail_items(cfg, p, pats) =~= Seq::<ListItemV>::empty());
    assert(list_spec(ns, cfg, p, pats) =~= namespace_items_upto(
        ns,
        ns.len() as int,
        cfg,
        p,
        pats,
    ));
    lemma_namespace_upto_subscription(ns, cfg, p, pats, ns.len() as int, k);
}

/// Build the synthesized shared-root attribute list.
fn synthesized_attrs_exec(p: &ListPolicy) -> (r: Vec<Attribute>)
    ensures
        r@ == synthesized_attributes(*p),
{
    if p.include_children {
        let r = vec![Attribute::HasChildren, Attribute::NoSelect];
        assert(r@ =~= synthesized_attributes(*p));
        r
    } else {
        let r = vec![Attribute::NoSelect];
        assert(r@ =~= synthesized_attributes(*p));
        r
    }
}

} // verus!
