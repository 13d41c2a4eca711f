//! The command line: the options and subcommands of `sebastian`, and the
//! decisions that its subcommands take between their prompts and requests.

use vstd::prelude::*;

use crate::ariel::page::{title_page_views, ArielTitlePage, TitlePageView};
use crate::ariel::ArielUserConfig;
use crate::pattern::{regex_captures, regex_captures_spec};
use crate::text::{concat, has_prefix, starts_with_exec, suffix_from};
use crate::time::TimeTableConfig;
use crate::unimia::UnimiaUserConfig;

verus! {

/// The options that every subcommand sees: where the configuration is,
/// whether to save it, whether to ask nothing.
pub struct AppConfig {
    pub config_path: String,
    pub save: bool,
    pub silent: bool,
}

/// The command line of `sebastian`.
pub struct App {
    pub config_path: String,
    pub save: bool,
    pub silent: bool,
    pub action: Command,
}

/// The subcommands.
pub enum Command {
    Ariel(Ariel),
    Time(Time),
    Unimia(Unimia),
}

impl App {
    /// The options that every subcommand sees.
    pub fn to_config(&self) -> (r: AppConfig)
        ensures
            r.config_path@ == self.config_path@,
            r.save == self.save,
            r.silent == self.silent,
    {
        AppConfig { config_path: self.config_path.clone(), save: self.save, silent: self.silent }
    }
}

fn copy_app_config(c: &AppConfig) -> (r: AppConfig)
    ensures
        r.config_path@ == c.config_path@,
        r.save == c.save,
        r.silent == c.silent,
{
    AppConfig { config_path: c.config_path.clone(), save: c.save, silent: c.silent }
}

/// Why a subcommand did not run.
#[derive(Clone, Copy, PartialEq, Eq, Debug)]
pub enum CommandError {
    /// The subcommand is not available yet.
    NotAvailable,
}

/// Access your course's timetable.
pub struct Time {
    pub action: TimeTableAction,
    pub user_config: Option<TimeTableConfig>,
}

/// What to do with the timetable.
#[derive(Clone, Copy, PartialEq, Eq, Debug)]
pub enum TimeTableAction {
    /// Initialize the timetable configuration.
    Init,
    /// Show the timetable.
    Show,
}

impl Time {
    /// Runs the subcommand; the timetable is not available yet, so this
    /// reports so for every action.
    pub fn run(&mut self, app_config: AppConfig, user_config: Option<TimeTableConfig>) -> (r: Result<
        (AppConfig, TimeTableConfig),
        CommandError,
    >)
        ensures
            r == Err::<(AppConfig, TimeTableConfig), CommandError>(CommandError::NotAvailable),
            final(self).action == old(self).action,
            final(self).user_config == old(self).user_config,
    {
        Err(CommandError::NotAvailable)
    }
}

/// Access UniMia and show your personal informations.
pub struct Unimia {
    pub action: UnimiaAction,
    pub user_config: Option<UnimiaUserConfig>,
}

/// What to do with UniMia.
#[derive(Clone, Copy, PartialEq, Eq, Debug)]
pub enum UnimiaAction {
    /// Search unimia.
    Show,
    /// Initialize unimia.
    Init,
}

impl Unimia {
    /// Runs the subcommand; UniMia is not available yet, so this reports so
    /// for every action.
    pub fn run(&mut self, app_config: AppConfig, user_config: Option<UnimiaUserConfig>) -> (r: Result<
        (AppConfig, UnimiaUserConfig),
        CommandError,
    >)
        ensures
            r == Err::<(AppConfig, UnimiaUserConfig), CommandError>(CommandError::NotAvailable),
            final(self).action == old(self).action,
            final(self).user_config == old(self).user_config,
    {
        Err(CommandError::NotAvailable)
    }
}

/// Access the Ariel website and search for content to scrape.
pub struct Ariel {
    pub action: ArielAction,
    pub user_config: Option<ArielUserConfig>,
    pub app_config: Option<AppConfig>,
}

/// What to do on Ariel.
pub enum ArielAction {
    /// Scrape a page and those below it (all of them, or those chosen),
    /// saving into `output`.
    Scrape { auto: bool, output: String, url: String },
    /// Log in and initialize the configuration.
    Init { username: Option<String>, password: Option<String> },
    /// Search the courses named `name`.
    Search { name: String },
}

/// How a session is opened before the action.
pub enum Session {
    /// Log in with the stored credentials.
    Stored(ArielUserConfig),
    /// Ask for credentials: the user name to propose, the password given,
    /// and whether what is given is taken without asking.
    Prompt { username: Option<String>, password: Option<String>, auto: bool },
    /// The run is silent and a credential that it needs has no answer but
    /// the user's: the subcommand fails without asking.
    Unanswered,
}

/// The run asks nothing: every question takes its default answer.
pub open spec fn silent_run(a: Ariel) -> bool {
    a.app_config matches Some(c) && c.silent
}

/// The user name proposed when initializing: the stored one, where none was
/// given and one is stored.
pub open spec fn proposed_username(a: Ariel) -> Option<Seq<char>> {
    match a.action {
        ArielAction::Init { username, .. } => if username is None && a.user_config is Some {
            Some(a.user_config.unwrap().username@)
        } else {
            None
        },
        _ => None,
    }
}

/// `r` is how the subcommand `a` opens its session. To scrape or search:
/// with the stored credentials where there are some, else by asking, or,
/// in a silent run, not at all. To initialize: by asking, with the given
/// password and the proposed user name; a silent run takes both as they
/// are, and opens no session where either is missing.
pub open spec fn opens_session(a: Ariel, r: Session) -> bool {
    match (a.action, r) {
        (ArielAction::Init { password, .. }, Session::Prompt { username: u, password: p, auto }) => {
            &&& p.deep_view() == password.deep_view()
            &&& u.deep_view() == proposed_username(a)
            &&& auto == silent_run(a)
            &&& silent_run(a) ==> proposed_username(a) is Some && password is Some
        },
        (ArielAction::Init { password, .. }, Session::Unanswered) => silent_run(a) && !(
        proposed_username(a) is Some && password is Some),
        (ArielAction::Init { .. }, Session::Stored(_)) => false,
        (_, Session::Stored(c)) => a.user_config matches Some(s) && c.username@ == s.username@
            && c.password@ == s.password@,
        (_, Session::Prompt { username: u, password: p, auto }) => a.user_config is None && u is None
            && p is None && !auto && !silent_run(a),
        (_, Session::Unanswered) => a.user_config is None && silent_run(a),
    }
}

fn copy_user(c: &ArielUserConfig) -> (r: ArielUserConfig)
    ensures
        r.username@ == c.username@,
        r.password@ == c.password@,
{
    ArielUserConfig { username: c.username.clone(), password: c.password.clone() }
}

fn copy_option(o: &Option<String>) -> (r: Option<String>)
    ensures
        r.deep_view() == o.deep_view(),
{
    match o {
        Some(s) => Some(s.clone()),
        None => None,
    }
}

impl Ariel {
    /// Takes the options of the command and the stored credentials, as the
    /// subcommand starts.
    pub fn start(&mut self, app_config: AppConfig, user_config: Option<ArielUserConfig>)
        ensures
            final(self).app_config == Some(app_config),
            final(self).user_config == user_config,
            final(self).action == old(self).action,
    {
        self.user_config = user_config;
        self.app_config = Some(app_config);
    }

    /// How the session is opened (see `opens_session`).
    pub fn session(&self) -> (r: Session)
        ensures
            opens_session(*self, r),
    {
        let silent = match &self.app_config {
            Some(c) => c.silent,
            None => false,
        };
        match &self.action {
            ArielAction::Init { username, password } => {
                let proposed = match (username, &self.user_config) {
                    (None, Some(c)) => Some(c.username.clone()),
                    _ => None,
                };
                if silent && (proposed.is_none() || password.is_none()) {
                    Session::Unanswered
                } else {
                    Session::Prompt {
                        username: proposed,
                        password: copy_option(password),
                        auto: silent,
                    }
                }
            },
            _ => match &self.user_config {
                Some(c) => Session::Stored(copy_user(c)),
                None => if silent {
                    Session::Unanswered
                } else {
                    Session::Prompt { username: None, password: None, auto: false }
                },
            },
        }
    }

    /// Whether the run may ask: it may unless it is silent.
    pub fn asks(&self) -> (r: bool)
        ensures
            r == !silent_run(*self),
    {
        match &self.app_config {
            Some(c) => !c.silent,
            None => true,
        }
    }

    /// Records the credentials with which a login succeeded.
    pub fn logged_in(&mut self, config: ArielUserConfig)
        ensures
            final(self).user_config == Some(config),
            final(self).app_config == old(self).app_config,
            final(self).action == old(self).action,
    {
        self.user_config = Some(config);
    }

    /// After the action: to initialize means the configuration is saved.
    pub fn finish_action(&mut self)
        ensures
            final(self).user_config == old(self).user_config,
            final(self).action == old(self).action,
            match old(self).action {
                ArielAction::Init { .. } => match old(self).app_config {
                    Some(c) => final(self).app_config matches Some(f) && f.save && f.config_path
                        == c.config_path && f.silent == c.silent,
                    None => final(self).app_config is None,
                },
                _ => final(self).app_config == old(self).app_config,
            },
    {
        if let ArielAction::Init { .. } = self.action {
            match &mut self.app_config {
                Some(c) => {
                    c.save = true;
                },
                None => {},
            }
        }
    }

    /// What the subcommand hands back: the options and the credentials;
    /// `None` where either is missing.
    pub fn outcome(&self) -> (r: Option<(AppConfig, ArielUserConfig)>)
        ensures
            match (&self.app_config, &self.user_config, r) {
                (Some(a), Some(u), Some((ra, ru))) => ra.config_path@ == a.config_path@ && ra.save
                    == a.save && ra.silent == a.silent && ru.username@ == u.username@
                    && ru.password@ == u.password@,
                (Some(_), Some(_), None) => false,
                (_, _, r) => r is None,
            },
    {
        match (&self.app_config, &self.user_config) {
            (Some(a), Some(u)) => Some((copy_app_config(a), copy_user(u))),
            _ => None,
        }
    }
}

/// Whether to take a credential as given, or to ask for it (proposing the
/// given one where asked to).
pub enum Credential {
    Take(String),
    Ask(Option<String>),
}

/// Whether a credential is asked for: unless the login is automatic and
/// the credential is given.
pub open spec fn credential_asked(given: Option<Seq<char>>, auto: bool) -> bool {
    !(auto && given is Some)
}

/// A silent run asks for no credential: its session is opened with the
/// stored credentials, or with credentials that are all taken as given, or
/// not at all.
pub proof fn lemma_silent_run_asks_no_credential(a: Ariel, r: Session)
    requires
        opens_session(a, r),
        silent_run(a),
    ensures
        r matches Session::Prompt { username, password, auto } ==> !credential_asked(
            username.deep_view(),
            auto,
        ) && !credential_asked(password.deep_view(), auto),
{
}

/// The user name: taken as given when the login is automatic, else asked
/// for with the given one proposed.
pub fn username_choice(username: Option<String>, auto: bool) -> (r: Credential)
    ensures
        (r is Ask) == credential_asked(username.deep_view(), auto),
        match (username, r) {
            (Some(u), Credential::Take(t)) => auto && t == u,
            (Some(u), Credential::Ask(p)) => !auto && p == Some(u),
            (None, Credential::Ask(p)) => p is None,
            (None, Credential::Take(_)) => false,
        },
{
    match username {
        Some(u) => if auto {
            Credential::Take(u)
        } else {
            Credential::Ask(Some(u))
        },
        None => Credential::Ask(None),
    }
}

/// The password: taken as given when the login is automatic, else asked
/// for, with nothing proposed.
pub fn password_choice(password: Option<String>, auto: bool) -> (r: Credential)
    ensures
        (r is Ask) == credential_asked(password.deep_view(), auto),
        match (password, r) {
            (Some(p), Credential::Take(t)) => auto && t == p,
            (Some(_), Credential::Ask(q)) => !auto && q is None,
            (None, Credential::Ask(q)) => q is None,
            (None, Credential::Take(_)) => false,
        },
{
    match password {
        Some(p) => if auto {
            Credential::Take(p)
        } else {
            Credential::Ask(None)
        },
        None => Credential::Ask(None),
    }
}

/// The mail domains of the university.
pub open spec fn mail_domains() -> Seq<Seq<char>> {
    seq!["@studenti.unimi.it"@, "@unimi.it"@]
}

/// The completions of the first `k` mail domains for a user name `input`
/// whose domain part typed so far is `domain`: `input` followed by the rest
/// of each domain that starts with `domain`.
pub open spec fn completions(input: Seq<char>, domain: Seq<char>, k: int) -> Seq<Seq<char>>
    decreases k,
{
    if k <= 0 {
        Seq::empty()
    } else {
        let mail = mail_domains()[k - 1];
        completions(input, domain, k - 1) + if has_prefix(mail, domain) {
            seq![completed(input, domain, mail)]
        } else {
            Seq::empty()
        }
    }
}

/// The completions that are proposed while a user name is typed: where it
/// holds a domain part (from `@` on, as `@.*` matches it), the user name
/// completed to each university domain that starts with it; none otherwise.
/// `None` where the pattern cannot be compiled.
pub open spec fn address_suggestions(input: Seq<char>) -> Option<Seq<Seq<char>>> {
    match regex_captures_spec("@.*"@, input) {
        None => None,
        Some(None) => Some(Seq::empty()),
        Some(Some(gs)) => if gs.len() > 0 && gs[0] is Some {
            Some(completions(input, gs[0].unwrap(), 2))
        } else {
            Some(Seq::empty())
        },
    }
}

/// The completions proposed while a user name is typed (see
/// `address_suggestions`).
pub fn suggest_addresses(input: &str) -> (r: Option<Vec<String>>)
    ensures
        r matches Some(v) ==> address_suggestions(input@) == Some(v.deep_view()),
        r is None ==> address_suggestions(input@) is None,
{
    let gs = match regex_captures("@.*", input) {
        None => return None,
        Some(None) => {
            let v: Vec<String> = Vec::new();
            assert(v.deep_view() =~= Seq::<Seq<char>>::empty());
            return Some(v);
        },
        Some(Some(gs)) => gs,
    };
    let domain = if gs.len() > 0 {
        match &gs[0] {
            Some(d) => d.clone(),
            None => {
                let v: Vec<String> = Vec::new();
                assert(v.deep_view() =~= Seq::<Seq<char>>::empty());
                return Some(v);
            },
        }
    } else {
        let v: Vec<String> = Vec::new();
        assert(v.deep_view() =~= Seq::<Seq<char>>::empty());
        return Some(v);
    };
    let mails: [&str; 2] = ["@studenti.unimi.it", "@unimi.it"];
    let mut res: Vec<String> = Vec::new();
    let mut k: usize = 0;
    assert(res.deep_view() =~= Seq::<Seq<char>>::empty());
    while k < 2
        invariant
            k <= 2,
            mails@[0]@ == mail_domains()[0],
            mails@[1]@ == mail_domains()[1],
            res.deep_view() == completions(input@, domain@, k as int),
        decreases 2 - k,
    {
        let mail = mails[k];
        let ghost before = res.deep_view();
        if starts_with_exec(mail, domain.as_str()) {
            let rest = suffix_from(mail, domain.as_str().unicode_len());
            let s = concat(input, rest.as_str());
            res.push(s);
            assert(res.deep_view() =~= before.push(s@));
        } else {
            assert(res.deep_view() =~= before + Seq::<Seq<char>>::empty());
        }
        k = k + 1;
    }
    Some(res)
}

/// The courses of a search that the user may open, in order.
pub open spec fn open_courses(v: Seq<TitlePageView>) -> Seq<TitlePageView>
    decreases v.len(),
{
    if v.len() == 0 {
        v
    } else {
        let r = open_courses(v.drop_last());
        if v.last().can_access {
            r.push(v.last())
        } else {
            r
        }
    }
}

fn copy_title_page(p: &ArielTitlePage) -> (r: ArielTitlePage)
    ensures
        r@ == p@,
{
    let mut holders: Vec<String> = Vec::new();
    let mut i: usize = 0;
    while i < p.holders.len()
        invariant
            i <= p.holders@.len(),
            holders.deep_view() =~= p.holders.deep_view().subrange(0, i as int),
        decreases p.holders@.len() - i,
    {
        let ghost before = holders.deep_view();
        let h = p.holders[i].clone();
        holders.push(h);
        assert(holders.deep_view() =~= before.push(h@));
        assert(p.holders.deep_view()[i as int] == p.holders@[i as int]@);
        assert(p.holders.deep_view().subrange(0, i + 1) =~= p.holders.deep_view().subrange(
            0,
            i as int,
        ).push(p.holders.deep_view()[i as int]));
        i = i + 1;
    }
    assert(p.holders.deep_view().subrange(0, p.holders@.len() as int) =~= p.holders.deep_view());
    ArielTitlePage { title: p.title.clone(), url: p.url.clone(), holders, can_access: p.can_access }
}

/// The courses of a search that the user may open, in order.
pub fn accessible_pages(pages: &Vec<ArielTitlePage>) -> (r: Vec<ArielTitlePage>)
    ensures
        title_page_views(r@) == open_courses(title_page_views(pages@)),
{
    let ghost all = title_page_views(pages@);
    let mut out: Vec<ArielTitlePage> = Vec::new();
    let mut i: usize = 0;
    assert(all.subrange(0, 0) =~= Seq::<TitlePageView>::empty());
    assert(title_page_views(out@) =~= Seq::<TitlePageView>::empty());
    while i < pages.len()
        invariant
            i <= pages@.len(),
            all == title_page_views(pages@),
            title_page_views(out@) == open_courses(all.subrange(0, i as int)),
        decreases pages@.len() - i,
    {
        let ghost prefix = all.subrange(0, i + 1);
        assert(prefix.drop_last() =~= all.subrange(0, i as int));
        assert(prefix.last() == pages@[i as int]@);
        if pages[i].can_access {
            let ghost before = out@;
            out.push(copy_title_page(&pages[i]));
            assert(title_page_views(out@) =~= title_page_views(before).push(pages@[i as int]@));
        }
        i = i + 1;
    }
    assert(all.subrange(0, pages@.len() as int) =~= all);
    out
}

/// The completion of `input` to `mail` when `domain` was typed.
pub open spec fn completed(input: Seq<char>, domain: Seq<char>, mail: Seq<char>) -> Seq<char> {
    input + mail.subrange(domain.len() as int, mail.len() as int)
}

proof fn lemma_completions(input: Seq<char>, domain: Seq<char>, k: int)
    requires
        0 <= k <= 2,
    ensures
        completions(input, domain, k).len() <= k,
        forall|i: int|
            0 <= i < completions(input, domain, k).len() ==> has_prefix(
                #[trigger] completions(input, domain, k)[i],
                input,
            ),
    decreases k,
{
    if k > 0 {
        lemma_completions(input, domain, k - 1);
        let prev = completions(input, domain, k - 1);
        let mail = mail_domains()[k - 1];
        let cur = completions(input, domain, k);
        assert forall|i: int| 0 <= i < cur.len() implies has_prefix(#[trigger] cur[i], input) by {
            if i < prev.len() {
                assert(cur[i] == prev[i]);
            } else {
                let c = completed(input, domain, mail);
                assert(cur[i] == c);
                assert(c.subrange(0, input.len() as int) =~= input);
            }
        }
    }
}

/// Every completion proposed while a user name is typed is what was typed
/// followed by the rest of a university mail domain (see `completions`); so
/// it begins with what was typed, and there are at most as many as there are
/// domains.
pub proof fn law_completions_extend_input(input: Seq<char>)
    requires
        address_suggestions(input) is Some,
    ensures
        ({
            let v = address_suggestions(input).unwrap();
            &&& v.len() <= mail_domains().len()
            &&& forall|i: int| 0 <= i < v.len() ==> has_prefix(#[trigger] v[i], input)
        }),
{
    match regex_captures_spec("@.*"@, input) {
        Some(Some(gs)) => {
            if gs.len() > 0 && gs[0] is Some {
                lemma_completions(input, gs[0].unwrap(), 2);
            }
        },
        _ => {},
    }
}

proof fn lemma_open_courses(v: Seq<TitlePageView>)
    ensures
        open_courses(v).len() <= v.len(),
        forall|i: int| 0 <= i < open_courses(v).len() ==> (#[trigger] open_courses(v)[i]).can_access,
        forall|i: int|
            0 <= i < v.len() && (#[trigger] v[i]).can_access ==> open_courses(v).contains(v[i]),
    decreases v.len(),
{
    if v.len() > 0 {
        let p = v.drop_last();
        lemma_open_courses(p);
        let r = open_courses(p);
        assert forall|i: int| 0 <= i < v.len() && (#[trigger] v[i]).can_access implies open_courses(
            v,
        ).contains(v[i]) by {
            if i < v.len() - 1 {
                assert(p[i] == v[i]);
                let j = choose|j: int| 0 <= j < r.len() && r[j] == p[i];
                if v.last().can_access {
                    assert(r.push(v.last())[j] == r[j]);
                }
            } else {
                assert(r.push(v.last())[r.len() as int] == v.last());
            }
        }
        if v.last().can_access {
            assert forall|i: int| 0 <= i < open_courses(v).len() implies (#[trigger] open_courses(
                v,
            )[i]).can_access by {
                if i < r.len() {
                    assert(r.push(v.last())[i] == r[i]);
                }
            }
        }
    }
}

/// The courses offered after a search are exactly those of the search that
/// the user may open: every one offered may be opened, and every one that
/// may be opened is offered.
pub proof fn law_open_courses(v: Seq<TitlePageView>)
    ensures
        forall|i: int| 0 <= i < open_courses(v).len() ==> (#[trigger] open_courses(v)[i]).can_access,
        forall|i: int|
            0 <= i < v.len() && (#[trigger] v[i]).can_access ==> open_courses(v).contains(v[i]),
        open_courses(v).len() <= v.len(),
{
    lemma_open_courses(v);
}

} // verus!
