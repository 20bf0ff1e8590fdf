//! Where a connection's password comes from.
use crate::config::Connection;
use crate::text;
use vstd::prelude::*;

verus! {

/// The environment variable that a password is taken from before the keyring is asked.
pub const PASSWORD_ENV_VAR: &'static str = "RATWARREN_PASSWORD";

/// How long to wait for the keyring before the user is told.
pub const KEYRING_NOTICE_AFTER_MS: u64 = 3_000;

/// How long to wait for the keyring at all.
pub const KEYRING_GIVE_UP_AFTER_MS: u64 = 60_000;

/// A password, and where it came from, or why there is none.
pub enum Resolved {
    FromEnv(String),
    FromKeyring(String),
    NotConfigured,
    Unavailable { reason: String },
}

/// A `Resolved` as a value.
pub enum ResolvedView {
    FromEnv(Seq<char>),
    FromKeyring(Seq<char>),
    NotConfigured,
    Unavailable { reason: Seq<char> },
}

impl View for Resolved {
    type V = ResolvedView;

    open spec fn view(&self) -> ResolvedView {
        match self {
            Resolved::FromEnv(p) => ResolvedView::FromEnv(p@),
            Resolved::FromKeyring(p) => ResolvedView::FromKeyring(p@),
            Resolved::NotConfigured => ResolvedView::NotConfigured,
            Resolved::Unavailable { reason } => ResolvedView::Unavailable { reason: reason@ },
        }
    }
}

/// How a value is shown in a log: without the password.
pub open spec fn shown(r: ResolvedView) -> Seq<char> {
    match r {
        ResolvedView::FromEnv(_) => "Resolved::FromEnv(..)"@,
        ResolvedView::FromKeyring(_) => "Resolved::FromKeyring(..)"@,
        ResolvedView::NotConfigured => "Resolved::NotConfigured(..)"@,
        ResolvedView::Unavailable { reason } => "Resolved::Unavailable(..)"@,
    }
}

/// What is shown of a value does not depend on the password.
pub proof fn law_password_is_never_shown(p: Seq<char>, q: Seq<char>)
    ensures
        shown(ResolvedView::FromEnv(p)) == shown(ResolvedView::FromEnv(q)),
        shown(ResolvedView::FromKeyring(p)) == shown(ResolvedView::FromKeyring(q)),
{
}

impl Resolved {
    pub fn password(&self) -> (p: Option<&str>)
        ensures
            match self@ {
                ResolvedView::FromEnv(s) => p matches Some(p) && p@ == s,
                ResolvedView::FromKeyring(s) => p matches Some(p) && p@ == s,
                _ => p is None,
            },
    {
        match self {
            Resolved::FromEnv(p) => Some(p.as_str()),
            Resolved::FromKeyring(p) => Some(p.as_str()),
            Resolved::NotConfigured => None,
            Resolved::Unavailable { .. } => None,
        }
    }

    /// What the user is told about the password.
    pub fn note(&self) -> (n: Option<String>)
        ensures
            text::opt_view(n) == (match self@ {
                ResolvedView::FromEnv(_) => Some("using the password from RATWARREN_PASSWORD"@),
                ResolvedView::Unavailable { reason } => Some(
                    "could not read the password from the OS keyring ("@ + reason
                        + "); connecting without one — set RATWARREN_PASSWORD to supply it directly"@,
                ),
                _ => None,
            }),
    {
        match self {
            Resolved::FromEnv(_) => Some("using the password from RATWARREN_PASSWORD".to_owned()),
            Resolved::FromKeyring(_) => None,
            Resolved::NotConfigured => None,
            Resolved::Unavailable { reason } => {
                let mut n: String = "could not read the password from the OS keyring (".to_owned();
                n.append(reason.as_str());
                n.append(
                    "); connecting without one — set RATWARREN_PASSWORD to supply it directly",
                );
                Some(n)
            },
        }
    }

    /// How the value is shown in a log: without the password.
    pub fn debug_text(&self) -> (s: &'static str)
        ensures
            s@ == shown(self@),
    {
        match self {
            Resolved::FromEnv(_) => "Resolved::FromEnv(..)",
            Resolved::FromKeyring(_) => "Resolved::FromKeyring(..)",
            Resolved::NotConfigured => "Resolved::NotConfigured(..)",
            Resolved::Unavailable { .. } => "Resolved::Unavailable(..)",
        }
    }
}

/// What the keyring's answer comes to.
pub open spec fn from_lookup(r: Result<String, String>) -> ResolvedView {
    match r {
        Ok(p) => ResolvedView::FromKeyring(p@),
        Err(reason) => ResolvedView::Unavailable { reason: reason@ },
    }
}

/// Whether the environment supplies a password.
pub open spec fn env_supplies(env_password: Option<Seq<char>>) -> bool {
    env_password is Some && env_password->0.len() > 0
}

/// The environment supplies a password exactly if the variable is set to something; the keyring's
/// answer is a password exactly if it found one, and then the one that it found.
pub proof fn law_passwords_come_through_unchanged(p: String, found: Result<String, String>)
    ensures
        env_supplies(Some(p@)) <==> p@ != Seq::<char>::empty(),
        !env_supplies(None),
        from_lookup(found) matches ResolvedView::FromKeyring(q) ==> found is Ok && q
            == found->Ok_0@,
        from_lookup(found) matches ResolvedView::Unavailable { reason } ==> found is Err && reason
            == found->Err_0@,
        from_lookup(found) is FromKeyring || from_lookup(found) is Unavailable,
{
    assert(p@.len() == 0 ==> p@ =~= Seq::<char>::empty());
}

/// Whether the keyring is asked for a password: where the environment supplies none and the connection
/// has one there.
pub open spec fn asks_keyring(env_password: Option<Seq<char>>, account: Option<Seq<char>>) -> bool {
    !env_supplies(env_password) && account is Some
}

/// What a password comes from, if the keyring answers with `found` where it is asked.
pub open spec fn resolved_of(
    env_password: Option<Seq<char>>,
    account: Option<Seq<char>>,
    found: Result<String, String>,
) -> ResolvedView {
    if env_supplies(env_password) {
        ResolvedView::FromEnv(env_password->0)
    } else {
        match account {
            None => ResolvedView::NotConfigured,
            Some(_) => from_lookup(found),
        }
    }
}

/// The environment goes before the keyring, which is then not asked at all; an empty variable counts
/// as none; a connection without a password has none, unless the environment supplies it; and what the
/// keyring answers is taken as it is.
pub proof fn law_the_environment_goes_first(
    env_password: Option<Seq<char>>,
    account: Option<Seq<char>>,
    found: Result<String, String>,
)
    ensures
        env_password matches Some(p) ==> p.len() > 0 ==> resolved_of(env_password, account, found)
            == ResolvedView::FromEnv(p) && !asks_keyring(env_password, account),
        (env_password matches Some(p) ==> p.len() == 0) && account is None ==> resolved_of(
            env_password,
            account,
            found,
        ) is NotConfigured && !asks_keyring(env_password, account),
        (env_password matches Some(p) ==> p.len() == 0) && account is Some ==> asks_keyring(
            env_password,
            account,
        ) && resolved_of(env_password, account, found) == (match found {
            Ok(p) => ResolvedView::FromKeyring(p@),
            Err(reason) => ResolvedView::Unavailable { reason: reason@ },
        }),
{
}

/// Whether the keyring is going to be asked for a connection's password.
pub fn will_look_up_keyring(conn: &Connection, env_password: &Option<String>) -> (b: bool)
    ensures
        b == asks_keyring(text::opt_view(*env_password), crate::config::account_of(conn@)),
{
    let supplied = match env_password {
        Some(p) => !p.as_str().is_empty(),
        None => false,
    };
    !supplied && conn.keyring_account().is_some()
}

/// Finds a connection's password: in the environment, else in the keyring. The keyring is asked,
/// through `lookup`, only where the environment supplies nothing and the connection has a password
/// there, and then under the connection's service and account.
pub fn resolve_with<F>(conn: &Connection, env_password: Option<String>, lookup: F) -> (r:
    Resolved) where F: FnOnce(&str, &str) -> Result<String, String>
    requires
        !env_supplies(text::opt_view(env_password)) && crate::config::account_of(conn@)
            is Some ==> forall|s: &str, a: &str|
            s@ == crate::config::KEYRING_SERVICE@ && a@ == crate::config::account_of(conn@)->0
                ==> #[trigger] lookup.requires((s, a)),
    ensures
        if env_supplies(text::opt_view(env_password)) {
            r@ == ResolvedView::FromEnv(env_password->0@)
        } else {
            match crate::config::account_of(conn@) {
                None => r@ == ResolvedView::NotConfigured,
                Some(account) => exists|s: &str, a: &str, found: Result<String, String>|
                    s@ == crate::config::KEYRING_SERVICE@ && a@ == account
                        && #[trigger] lookup.ensures((s, a), found) && r@ == from_lookup(found),
            }
        },
        exists|found: Result<String, String>|
            r@ == #[trigger] resolved_of(
                text::opt_view(env_password),
                crate::config::account_of(conn@),
                found,
            ),
{
    let ghost env = text::opt_view(env_password);
    let ghost in_keyring = crate::config::account_of(conn@);
    let ghost none = Err::<String, String>(arbitrary());
    if let Some(p) = env_password {
        if !p.as_str().is_empty() {
            proof {
                assert(resolved_of(env, in_keyring, none) == ResolvedView::FromEnv(p@));
            }
            return Resolved::FromEnv(p);
        }
    }
    match conn.keyring_account() {
        None => {
            proof {
                assert(resolved_of(env, in_keyring, none) == ResolvedView::NotConfigured);
            }
            Resolved::NotConfigured
        },
        Some(account) => {
            let service: &str = conn.keyring_service();
            let name: &str = account.as_str();
            let found: Result<String, String> = lookup(service, name);
            proof {
                assert(lookup.ensures((service, name), found));
                assert(resolved_of(env, in_keyring, found) == from_lookup(found));
            }
            looked_up(found)
        },
    }
}

/// What the keyring's answer comes to.
pub fn looked_up(found: Result<String, String>) -> (r: Resolved)
    ensures
        r@ == from_lookup(found),
{
    match found {
        Ok(p) => Resolved::FromKeyring(p),
        Err(reason) => Resolved::Unavailable { reason },
    }
}

/// Why the keyring gave no password.
#[derive(Debug, Clone, PartialEq, Eq)]
pub enum KeyringFailure {
    NoEntry,
    NoDefaultStore,
    /// Anything else: its text, with the texts of what caused it.
    Other(String),
}

/// The keyring's answer, with the reason for a failure in words.
pub fn classify(result: Result<String, KeyringFailure>) -> (r: Result<String, String>)
    ensures
        match result {
            Ok(p) => r == Ok::<String, String>(p),
            Err(KeyringFailure::NoEntry) => r is Err && r->Err_0@ == "no entry in the OS keyring"@,
            Err(KeyringFailure::NoDefaultStore) => r is Err && r->Err_0@
                == "this machine has no usable OS keyring"@,
            Err(KeyringFailure::Other(m)) => r == Err::<String, String>(m),
        },
{
    match result {
        Ok(p) => Ok(p),
        Err(KeyringFailure::NoEntry) => Err("no entry in the OS keyring".to_owned()),
        Err(KeyringFailure::NoDefaultStore) => Err(
            "this machine has no usable OS keyring".to_owned(),
        ),
        Err(KeyringFailure::Other(m)) => Err(m),
    }
}

/// How to go on when the keyring has not answered in time.
#[derive(Debug, Clone, PartialEq, Eq)]
pub enum KeyringWait {
    /// Tell the user, and wait on.
    Notice { message: &'static str, wait_ms: u64 },
    GiveUp { reason: String },
}

/// How to go on when the keyring has not answered in time: the user is told once, and the wait ends
/// when all of the time is over.
pub fn after_timeout(noticed: bool) -> (w: KeyringWait)
    ensures
        if noticed {
            w matches KeyringWait::GiveUp { reason } && reason@
                == "timed out waiting for the OS keyring"@
        } else {
            w matches KeyringWait::Notice { message, wait_ms } && message@
                == "note: still waiting for the OS keyring — if your OS is showing an authorization dialog, approve it (or press Ctrl-C and set RATWARREN_PASSWORD)"@
                && KEYRING_NOTICE_AFTER_MS + wait_ms == KEYRING_GIVE_UP_AFTER_MS && wait_ms
                == 57_000
        },
{
    if noticed {
        KeyringWait::GiveUp { reason: "timed out waiting for the OS keyring".to_owned() }
    } else {
        KeyringWait::Notice {
            message:
                "note: still waiting for the OS keyring — if your OS is showing an authorization dialog, approve it (or press Ctrl-C and set RATWARREN_PASSWORD)",
            wait_ms: KEYRING_GIVE_UP_AFTER_MS - KEYRING_NOTICE_AFTER_MS,
        }
    }
}

/// The password in a line that was read; `None` if there is none.
pub fn password_in_line(line: &str) -> (p: Option<String>)
    ensures
        text::opt_view(p) == (if text::without_breaks(line@).len() == 0 {
            None
        } else {
            Some(text::without_breaks(line@))
        }),
{
    let password: &str = text::trim_breaks(line);
    if password.unicode_len() == 0 {
        None
    } else {
        Some(password.to_owned())
    }
}

/// A key, while a password is typed.
#[derive(Debug, Clone, Copy, PartialEq, Eq, Structural)]
pub enum EntryKey {
    Enter,
    Escape,
    Backspace,
    /// A character, and whether Control is held with it.
    Char { c: char, control: bool },
    Other,
}

/// A password that is being typed.
pub struct PasswordEntry {
    typed: Vec<char>,
}

/// What a key did to a password that is being typed.
pub enum EntryStep {
    More,
    /// The user gave up.
    Cancelled,
    Done(Option<String>),
}

impl View for PasswordEntry {
    type V = Seq<char>;

    closed spec fn view(&self) -> Seq<char> {
        self.typed@
    }
}

/// What is typed after a key.
pub open spec fn typed_after(typed: Seq<char>, key: EntryKey) -> Seq<char> {
    match key {
        EntryKey::Backspace => if typed.len() > 0 {
            typed.drop_last()
        } else {
            typed
        },
        EntryKey::Char { c, control } => if control && c == 'c' {
            typed
        } else {
            typed.push(c)
        },
        _ => typed,
    }
}

/// Whether a key gives the entry up.
pub open spec fn gives_up(key: EntryKey) -> bool {
    match key {
        EntryKey::Escape => true,
        EntryKey::Char { c, control } => control && c == 'c',
        _ => false,
    }
}

/// Backspace takes back the character before it, and on nothing does nothing; a `c` without Control is
/// a character like any other, with it the entry is given up, as with Escape; no other key does that,
/// and keys that are not characters add nothing.
pub proof fn law_backspace_takes_back_what_was_typed(typed: Seq<char>, key: EntryKey, c: char)
    ensures
        typed_after(typed_after(typed, EntryKey::Char { c, control: false }), EntryKey::Backspace)
            == typed,
        typed_after(Seq::empty(), EntryKey::Backspace) == Seq::<char>::empty(),
        typed_after(typed, EntryKey::Char { c, control: false }) == typed + seq![c],
        !gives_up(EntryKey::Char { c, control: false }),
        gives_up(key) <==> key == EntryKey::Escape || key == (EntryKey::Char {
            c: 'c',
            control: true,
        }),
        gives_up(key) ==> typed_after(typed, key) == typed,
        typed_after(typed, key).len() > typed.len() ==> key is Char,
        typed_after(typed, key).len() < typed.len() ==> key is Backspace,
{
    assert(typed.push(c).drop_last() =~= typed);
    assert(typed.push(c) =~= typed + seq![c]);
}

impl PasswordEntry {
    /// Nothing is typed yet.
    pub fn new() -> (e: Self)
        ensures
            e@ == Seq::<char>::empty(),
    {
        PasswordEntry { typed: Vec::new() }
    }

    /// Takes up a key: a character is added, Backspace takes the last one back, Enter ends the
    /// entry, Escape and Ctrl+C give it up.
    pub fn key(&mut self, key: EntryKey) -> (step: EntryStep)
        ensures
            final(self)@ == typed_after(old(self)@, key),
            step is Cancelled <==> gives_up(key),
            step is Done <==> key is Enter,
            match key {
                EntryKey::Enter => {
                    &&& final(self)@ == old(self)@
                    &&& step matches EntryStep::Done(p)
                    &&& text::opt_view(p) == (if old(self)@.len() == 0 {
                        None
                    } else {
                        Some(old(self)@)
                    })
                },
                EntryKey::Escape => final(self)@ == old(self)@ && step is Cancelled,
                EntryKey::Backspace => step is More && final(self)@ == (if old(self)@.len() > 0 {
                    old(self)@.drop_last()
                } else {
                    old(self)@
                }),
                EntryKey::Char { c, control } => if control && c == 'c' {
                    final(self)@ == old(self)@ && step is Cancelled
                } else {
                    final(self)@ == old(self)@.push(c) && step is More
                },
                EntryKey::Other => final(self)@ == old(self)@ && step is More,
            },
    {
        match key {
            EntryKey::Enter => {
                if self.typed.len() == 0 {
                    return EntryStep::Done(None);
                }
                let mut p: String = String::new();
                let n: usize = self.typed.len();
                let mut i: usize = 0;
                while i < n
                    invariant
                        n == self.typed@.len(),
                        i <= n,
                        p@ == self.typed@.take(i as int),
                    decreases n - i,
                {
                    p.push(self.typed[i]);
                    i = i + 1;
                    proof {
                        assert(self.typed@.take(i as int) =~= self.typed@.take(i - 1).push(
                            self.typed@[i - 1],
                        ));
                    }
                }
                proof {
                    assert(self.typed@.take(n as int) =~= self.typed@);
                }
                EntryStep::Done(Some(p))
            },
            EntryKey::Escape => EntryStep::Cancelled,
            EntryKey::Backspace => {
                let _last: Option<char> = self.typed.pop();
                EntryStep::More
            },
            EntryKey::Char { c, control } => {
                if control && c == 'c' {
                    return EntryStep::Cancelled;
                }
                self.typed.push(c);
                EntryStep::More
            },
            EntryKey::Other => EntryStep::More,
        }
    }
}

} // verus!
