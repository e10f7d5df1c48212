//! Alert mediums and their dispatch registry.
//!
//! A medium turns a message into an unsent HTTP request: Telegram as a GET
//! with the message escaped for MarkdownV2, Spryng SMS as a POST with a JSON
//! body.  The manager keeps mediums by id and picks one for each alert.

use vstd::prelude::*;
use vstd::string::*;

use crate::config::AlertConfig;
use crate::dict::Dict;
use crate::error::Error;
use crate::storage::{copy_string_vec, label_index, labels_view, lemma_label_index};
use crate::text::{first_index_of, lemma_first_index_of, str_equal, str_find_char};

verus! {

/// A whitespace character, as recipients lists are trimmed.
pub open spec fn is_ws(c: char) -> bool {
    c == ' ' || c == '\t' || c == '\n' || c == '\r'
}

/// A string without its trailing whitespace.
pub open spec fn strip_trailing_ws(s: Seq<char>) -> Seq<char>
    decreases s.len(),
{
    if s.len() > 0 && is_ws(s.last()) {
        strip_trailing_ws(s.drop_last())
    } else {
        s
    }
}

/// What `strip_trailing_ws` returns.
pub proof fn lemma_strip_trailing_ws(s: Seq<char>)
    ensures
        ({
            let t = strip_trailing_ws(s);
            &&& t.len() <= s.len()
            &&& t == s.take(t.len() as int)
            &&& forall|j: int| t.len() <= j < s.len() ==> is_ws(#[trigger] s[j])
            &&& (t.len() == 0 || !is_ws(t.last()))
        }),
    decreases s.len(),
{
    let t = strip_trailing_ws(s);
    if s.len() > 0 && is_ws(s.last()) {
        lemma_strip_trailing_ws(s.drop_last());
        assert(s.drop_last().take(t.len() as int) =~= s.take(t.len() as int));
        assert forall|j: int| t.len() <= j < s.len() implies is_ws(#[trigger] s[j]) by {
            if j < s.len() - 1 {
                assert(is_ws(s.drop_last()[j]));
            }
        }
    } else {
        assert(s.take(s.len() as int) =~= s);
    }
}

/// A string without its leading whitespace.
pub open spec fn strip_leading_ws(s: Seq<char>) -> Seq<char>
    decreases s.len(),
{
    if s.len() > 0 && is_ws(s[0]) {
        strip_leading_ws(s.skip(1))
    } else {
        s
    }
}

/// What `strip_leading_ws` returns.
pub proof fn lemma_strip_leading_ws(s: Seq<char>)
    ensures
        ({
            let t = strip_leading_ws(s);
            &&& t.len() <= s.len()
            &&& t == s.skip(s.len() - t.len())
            &&& forall|j: int| 0 <= j < s.len() - t.len() ==> is_ws(#[trigger] s[j])
            &&& (t.len() == 0 || !is_ws(t[0]))
        }),
    decreases s.len(),
{
    let t = strip_leading_ws(s);
    if s.len() > 0 && is_ws(s[0]) {
        lemma_strip_leading_ws(s.skip(1));
        assert(s.skip(1).skip(s.skip(1).len() - t.len()) =~= s.skip(s.len() - t.len()));
        assert forall|j: int| 0 <= j < s.len() - t.len() implies is_ws(#[trigger] s[j]) by {
            if j >= 1 {
                assert(is_ws(s.skip(1)[j - 1]));
            }
        }
    } else {
        assert(s.skip(0) =~= s);
    }
}

/// A string trimmed of whitespace at both ends.
pub open spec fn trim_spec(s: Seq<char>) -> Seq<char> {
    strip_leading_ws(strip_trailing_ws(s))
}

/// Whitespace test matching [`is_ws`].
fn is_ws_char(c: char) -> (r: bool)
    ensures
        r == is_ws(c),
{
    c == ' ' || c == '\t' || c == '\n' || c == '\r'
}

/// Trim whitespace from both ends of a string.
pub fn trim_str(s: &str) -> (r: String)
    ensures
        r@ == trim_spec(s@),
{
    proof {
        lemma_strip_trailing_ws(s@);
        lemma_strip_leading_ws(strip_trailing_ws(s@));
    }
    let n = s.unicode_len();
    let mut end: usize = n;
    while end > 0 && is_ws_char(s.get_char(end - 1))
        invariant
            0 <= end <= n,
            n == s@.len(),
            forall|j: int| end <= j < n ==> is_ws(#[trigger] s@[j]),
        decreases end,
    {
        end -= 1;
    }
    proof {
        let t = strip_trailing_ws(s@);
        assert(end as int == t.len()) by {
            if (end as int) < t.len() {
                assert(is_ws(s@[t.len() - 1]));
                assert(t.last() == s@[t.len() - 1]);
            }
            if (end as int) > t.len() {
                assert(is_ws(s@[end - 1]));
            }
        }
    }
    let mut start: usize = 0;
    while start < end && is_ws_char(s.get_char(start))
        invariant
            0 <= start <= end <= n,
            n == s@.len(),
            forall|j: int| end <= j < n ==> is_ws(#[trigger] s@[j]),
            end as int == strip_trailing_ws(s@).len(),
            forall|j: int| 0 <= j < start ==> is_ws(#[trigger] s@[j]),
        decreases end - start,
    {
        start += 1;
    }
    let r = s.substring_char(start, end).to_owned();
    proof {
        let t = strip_trailing_ws(s@);
        let u = strip_leading_ws(t);
        assert(t == s@.take(end as int));
        assert(start as int == t.len() - u.len()) by {
            if (start as int) < t.len() - u.len() {
                assert(is_ws(t[start as int]));
                assert(t[start as int] == s@[start as int]);
            }
            if (start as int) > t.len() - u.len() {
                assert(u.len() > 0 ==> !is_ws(u[0]));
                assert(u == t.skip(t.len() - u.len()));
                if u.len() > 0 {
                    assert(u[0] == t[t.len() - u.len()]);
                    assert(t[t.len() - u.len()] == s@[t.len() - u.len()]);
                    assert(is_ws(s@[t.len() - u.len()]));
                } else {
                    assert(start <= end);
                }
            }
        }
        assert(r@ =~= trim_spec(s@));
    }
    r
}

/// A comma-separated list split into its pieces.
pub open spec fn split_commas(s: Seq<char>) -> Seq<Seq<char>>
    decreases s.len(),
    via split_commas_decreases
{
    match first_index_of(s, ',') {
        Some(i) => seq![s.subrange(0, i)] + split_commas(s.skip(i + 1)),
        None => seq![s],
    }
}

#[via_fn]
proof fn split_commas_decreases(s: Seq<char>) {
    lemma_first_index_of(s, ',');
}

/// A recipients list: comma-separated entries, each trimmed.
pub open spec fn recipients_spec(s: Seq<char>) -> Seq<Seq<char>> {
    split_commas(s).map_values(|p: Seq<char>| trim_spec(p))
}

/// Split a comma-separated recipients list, trimming each entry.
pub fn split_recipients(s: &str) -> (r: Vec<String>)
    ensures
        r@.map_values(|x: String| x@) == recipients_spec(s@),
    decreases s@.len(),
{
    proof {
        lemma_first_index_of(s@, ',');
    }
    let n = s.unicode_len();
    match str_find_char(s, ',') {
        Some(i) => {
            let head = trim_str(s.substring_char(0, i));
            let rest_str = s.substring_char(i + 1, n);
            proof {
                assert(rest_str@ =~= s@.skip(i + 1));
            }
            let mut rest = split_recipients(rest_str);
            let ghost prev = rest@;
            rest.insert(0, head);
            proof {
                let parts = split_commas(s@);
                assert(parts == seq![s@.subrange(0, i as int)] + split_commas(s@.skip(i + 1)));
                assert(rest@.len() == prev.len() + 1);
                assert(prev.map_values(|x: String| x@).len() == prev.len());
                assert(prev.map_values(|x: String| x@).len() == recipients_spec(rest_str@).len());
                assert(recipients_spec(rest_str@).len() == split_commas(rest_str@).len());
                assert(recipients_spec(s@).len() == parts.len());
                assert(parts.len() == 1 + split_commas(s@.skip(i + 1)).len());
                assert(rest@.map_values(|x: String| x@).len() == recipients_spec(s@).len());
                assert forall|q: int|
                    0 <= q < rest@.len() implies (#[trigger] rest@[q])@ == recipients_spec(
                    s@,
                )[q] by {
                    assert(recipients_spec(s@)[q] == trim_spec(parts[q]));
                    if q == 0 {
                        assert(rest@[0] == head);
                        assert(parts[0] == s@.subrange(0, i as int));
                    } else {
                        assert(rest@[q] == prev[q - 1]);
                        assert(prev[q - 1]@ == prev.map_values(|x: String| x@)[q - 1]);
                        assert(prev.map_values(|x: String| x@)[q - 1] == recipients_spec(
                            rest_str@,
                        )[q - 1]);
                        assert(recipients_spec(rest_str@)[q - 1] == trim_spec(
                            split_commas(rest_str@)[q - 1],
                        ));
                        assert(parts[q] == split_commas(s@.skip(i + 1))[q - 1]);
                    }
                }
                assert(rest@.map_values(|x: String| x@) =~= recipients_spec(s@));
            }
            rest
        },
        None => {
            let mut out: Vec<String> = Vec::new();
            out.push(trim_str(s));
            proof {
                assert(out@.map_values(|x: String| x@) =~= recipients_spec(s@));
            }
            out
        },
    }
}

/// The value a name has in an environment snapshot, if any.
pub open spec fn env_value(env: Seq<(Seq<char>, Seq<char>)>, k: Seq<char>) -> Option<Seq<char>> {
    match label_index(env, k) {
        Some(i) => Some(env[i].1),
        None => None,
    }
}

/// Look a name up in an environment snapshot.
pub fn lookup_env(env: &Vec<(String, String)>, key: &str) -> (r: Option<String>)
    ensures
        match r {
            Some(v) => env_value(labels_view(env@), key@) == Some(v@),
            None => env_value(labels_view(env@), key@) is None,
        },
{
    proof {
        lemma_label_index(labels_view(env@), key@);
    }
    let n = env.len();
    let mut i: usize = 0;
    while i < n
        invariant
            0 <= i <= n,
            n == env@.len(),
            forall|j: int| 0 <= j < i ==> (#[trigger] labels_view(env@)[j]).0 != key@,
        decreases n - i,
    {
        if str_equal(env[i].0.as_str(), key) {
            proof {
                lemma_label_index(labels_view(env@), key@);
                assert(labels_view(env@)[i as int].0 == key@);
                assert(label_index(labels_view(env@), key@) == Some(i as int));
            }
            return Some(env[i].1.clone());
        }
        i += 1;
    }
    proof {
        lemma_label_index(labels_view(env@), key@);
    }
    None
}

/// A message escaped for Telegram's MarkdownV2: every dash gets a backslash.
pub open spec fn escape_md(s: Seq<char>) -> Seq<char>
    decreases s.len(),
{
    if s.len() == 0 {
        Seq::empty()
    } else {
        escape_md(s.drop_last()) + (if s.last() == '-' {
            seq!['\\', '-']
        } else {
            seq![s.last()]
        })
    }
}

/// Escape a message for Telegram's MarkdownV2.
pub fn escape_markdown(message: &str) -> (r: String)
    ensures
        r@ == escape_md(message@),
{
    let n = message.unicode_len();
    let mut out = String::new();
    let mut i: usize = 0;
    while i < n
        invariant
            0 <= i <= n,
            n == message@.len(),
            out@ == escape_md(message@.take(i as int)),
        decreases n - i,
    {
        proof {
            assert(message@.take(i + 1).drop_last() =~= message@.take(i as int));
            assert(message@.take(i + 1).last() == message@[i as int]);
        }
        if message.get_char(i) == '-' {
            out.append("\\-");
            proof {
                reveal_strlit("\\-");
                assert(out@ =~= escape_md(message@.take(i + 1)));
            }
        } else {
            let piece = message.substring_char(i, i + 1);
            proof {
                assert(piece@ =~= seq![message@[i as int]]);
            }
            out.append(piece);
            proof {
                assert(out@ =~= escape_md(message@.take(i + 1)));
            }
        }
        i += 1;
    }
    proof {
        assert(message@.take(n as int) =~= message@);
    }
    out
}

/// The Telegram sendMessage URL for a bot, chat and escaped message.
pub open spec fn telegram_url_spec(token: Seq<char>, chat_id: Seq<char>, message: Seq<char>)
    -> Seq<char> {
    "https://api.telegram.org/bot"@ + token + "/sendMessage?chat_id="@ + chat_id
        + "&parse_mode=MarkdownV2&text="@ + escape_md(message)
}

/// Build the Telegram sendMessage URL.
pub fn telegram_notify_url(token: &str, chat_id: &str, message: &str) -> (r: String)
    ensures
        r@ == telegram_url_spec(token@, chat_id@, message@),
{
    let mut url = "https://api.telegram.org/bot".to_owned();
    url.append(token);
    url.append("/sendMessage?chat_id=");
    url.append(chat_id);
    url.append("&parse_mode=MarkdownV2&text=");
    let escaped = escape_markdown(message);
    url.append(escaped.as_str());
    proof {
        assert(url@ =~= telegram_url_spec(token@, chat_id@, message@));
    }
    url
}

/// How a Telegram alert is rendered to the operator.
pub struct TelegramOptions {
    pub disable_notifications: bool,
}

/// The Telegram medium: a bot token and a chat.
#[derive(Debug)]
pub struct TelegramAlerter {
    pub id: String,
    pub chat_id: String,
    pub token: String,
}

impl TelegramAlerter {
    /// A Telegram medium from its id, chat and token.
    pub fn new(id: String, chat_id: String, token: String) -> (r: Self)
        ensures
            r.id == id,
            r.chat_id == chat_id,
            r.token == token,
    {
        TelegramAlerter { id, chat_id, token }
    }
}

/// The Spryng SMS medium: a token and its recipients.
#[derive(Debug)]
pub struct SpryngAlerter {
    pub id: String,
    pub token: String,
    pub default_encoding: String,
    pub default_originator: String,
    pub default_route: String,
    pub recipients: Vec<String>,
}

impl SpryngAlerter {
    /// A Spryng medium from its id, token and recipients, with the fixed
    /// encoding, originator and route.
    pub fn new(id: String, token: String, recipients: Vec<String>) -> (r: Self)
        ensures
            r.id == id,
            r.token == token,
            r.recipients == recipients,
            r.default_encoding@ == "auto"@,
            r.default_originator@ == "watchdog"@,
            r.default_route@ == "business"@,
    {
        SpryngAlerter {
            id,
            token,
            default_encoding: "auto".to_owned(),
            default_originator: "watchdog".to_owned(),
            default_route: "business".to_owned(),
            recipients,
        }
    }
}

/// The JSON body of a Spryng message.
#[derive(Debug)]
pub struct SpryngMessage {
    pub body: String,
    pub encoding: String,
    pub originator: String,
    pub recipients: Vec<String>,
    pub route: String,
}

/// An unsent alert request.
#[derive(Debug)]
pub enum AlertRequest {
    Get { url: String },
    PostJson { url: String, bearer: String, body: SpryngMessage },
}

/// An alert medium.
#[derive(Debug)]
pub enum AlertMedium {
    Telegram(TelegramAlerter),
    Spryng(SpryngAlerter),
}

/// The id a medium is registered under.
pub open spec fn medium_id(m: AlertMedium) -> Seq<char> {
    match m {
        AlertMedium::Telegram(t) => t.id@,
        AlertMedium::Spryng(sp) => sp.id@,
    }
}

/// What request a medium builds for a message.
pub open spec fn request_matches(r: AlertRequest, m: AlertMedium, message: Seq<char>) -> bool {
    match m {
        AlertMedium::Telegram(t) => r matches AlertRequest::Get { url } && url@
            == telegram_url_spec(t.token@, t.chat_id@, message),
        AlertMedium::Spryng(sp) => r matches AlertRequest::PostJson { url, bearer, body } && {
            &&& url@ == "https://rest.spryngsms.com/v1/messages"@
            &&& bearer@ == sp.token@
            &&& body.body@ == message
            &&& body.encoding == sp.default_encoding
            &&& body.originator == sp.default_originator
            &&& body.recipients@ == sp.recipients@
            &&& body.route == sp.default_route
        },
    }
}

impl AlertMedium {
    /// The medium's id.
    pub fn get_id(&self) -> (r: String)
        ensures
            r@ == medium_id(*self),
    {
        match self {
            AlertMedium::Telegram(t) => t.id.clone(),
            AlertMedium::Spryng(sp) => sp.id.clone(),
        }
    }

    /// Build the unsent request that carries a message over this medium.
    pub fn build_request(&self, message: &str) -> (r: AlertRequest)
        ensures
            request_matches(r, *self, message@),
    {
        match self {
            AlertMedium::Telegram(t) => {
                let url = telegram_notify_url(t.token.as_str(), t.chat_id.as_str(), message);
                AlertRequest::Get { url }
            },
            AlertMedium::Spryng(sp) => {
                AlertRequest::PostJson {
                    url: "https://rest.spryngsms.com/v1/messages".to_owned(),
                    bearer: sp.token.clone(),
                    body: SpryngMessage {
                        body: message.to_owned(),
                        encoding: sp.default_encoding.clone(),
                        originator: sp.default_originator.clone(),
                        recipients: copy_string_vec(&sp.recipients),
                        route: sp.default_route.clone(),
                    },
                }
            },
        }
    }
}

/// Whether a configured alerter entry can be built from the environment.
pub open spec fn entry_valid(a: AlertConfig, env: Seq<(Seq<char>, Seq<char>)>) -> bool {
    if a.medium@ == "telegram"@ {
        &&& a.chat_env is Some
        &&& a.token_env is Some
        &&& env_value(env, a.chat_env->Some_0@) is Some
        &&& env_value(env, a.token_env->Some_0@) is Some
    } else if a.medium@ == "spryng"@ {
        &&& a.recipients_env is Some
        &&& a.token_env is Some
        &&& env_value(env, a.recipients_env->Some_0@) is Some
        &&& env_value(env, a.token_env->Some_0@) is Some
    } else {
        false
    }
}

/// The error an entry that cannot be built yields.
pub open spec fn entry_error(a: AlertConfig, env: Seq<(Seq<char>, Seq<char>)>) -> Seq<char> {
    if a.medium@ == "telegram"@ {
        if a.chat_env is None {
            "Expected 'chat_env' configuration with Telegram medium"@
        } else if a.token_env is None {
            "Expected 'token_env' configuration with Telegram medium"@
        } else if env_value(env, a.chat_env->Some_0@) is None {
            "Expected Telegram chat ID as environment variable"@
        } else {
            "Expected Telegram token as environment variable"@
        }
    } else if a.medium@ == "spryng"@ {
        if a.recipients_env is None {
            "Expected 'recipients_env' configuration with Spryng medium"@
        } else if a.token_env is None {
            "Expected 'token_env' configuration with Spryng medium"@
        } else if env_value(env, a.recipients_env->Some_0@) is None {
            "Expected Spryng SMS recipients as environment variable"@
        } else {
            "Expected Spryng token as environment variable"@
        }
    } else {
        "Could not find provider "@ + a.medium@
    }
}

/// The medium a valid entry builds.
pub open spec fn medium_matches(
    m: AlertMedium,
    a: AlertConfig,
    env: Seq<(Seq<char>, Seq<char>)>,
) -> bool {
    if a.medium@ == "telegram"@ {
        m matches AlertMedium::Telegram(t) && {
            &&& t.id@ == a.name@
            &&& Some(t.chat_id@) == env_value(env, a.chat_env->Some_0@)
            &&& Some(t.token@) == env_value(env, a.token_env->Some_0@)
        }
    } else if a.medium@ == "spryng"@ {
        m matches AlertMedium::Spryng(sp) && {
            &&& sp.id@ == a.name@
            &&& Some(sp.token@) == env_value(env, a.token_env->Some_0@)
            &&& sp.recipients@.map_values(|x: String| x@) == recipients_spec(
                env_value(env, a.recipients_env->Some_0@)->Some_0,
            )
            &&& sp.default_encoding@ == "auto"@
            &&& sp.default_originator@ == "watchdog"@
            &&& sp.default_route@ == "business"@
        }
    } else {
        false
    }
}

/// The registry of alert mediums, keyed by id.
#[derive(Debug)]
pub struct AlertManager {
    mediums: Dict<AlertMedium>,
}

impl AlertManager {
    /// The registered mediums by id.
    pub closed spec fn table(&self) -> Map<Seq<char>, AlertMedium> {
        self.mediums.table()
    }

    /// The registered mediums in insertion order.
    pub closed spec fn items(&self) -> Seq<(String, AlertMedium)> {
        self.mediums.items()
    }

    /// Ids are unique.
    pub closed spec fn wf(&self) -> bool {
        self.mediums.wf()
    }

    /// An empty registry.
    pub fn new() -> (r: AlertManager)
        ensures
            r.wf(),
            r.table() == Map::<Seq<char>, AlertMedium>::empty(),
            r.items() == Seq::<(String, AlertMedium)>::empty(),
    {
        AlertManager { mediums: Dict::new() }
    }

    /// Register a medium under its id, replacing any medium that had it.
    pub fn add_medium(&mut self, medium: AlertMedium)
        requires
            old(self).wf(),
        ensures
            final(self).wf(),
            final(self).table() == old(self).table().insert(medium_id(medium), medium),
    {
        let id = medium.get_id();
        self.mediums.insert(id, medium);
    }

    /// Build the registry from configured entries and an environment
    /// snapshot.  Fails on the first entry whose medium is unknown, whose
    /// required settings are missing, or whose environment names are unset.
    pub fn try_from_config(config: &Vec<AlertConfig>, env: &Vec<(String, String)>) -> (r: Result<
        AlertManager,
        Error,
    >)
        ensures
            r is Ok <==> (forall|i: int|
                0 <= i < config@.len() ==> entry_valid(
                    #[trigger] config@[i],
                    labels_view(env@),
                )),
            match r {
                Ok(mgr) => {
                    &&& mgr.wf()
                    &&& forall|i: int|
                        0 <= i < config@.len() && (forall|j: int|
                            i < j < config@.len() ==> (#[trigger] config@[j]).name@
                                != config@[i].name@) ==> mgr.table().contains_key(
                            (#[trigger] config@[i]).name@,
                        ) && medium_matches(
                            mgr.table()[config@[i].name@],
                            config@[i],
                            labels_view(env@),
                        )
                    &&& forall|k: Seq<char>|
                        mgr.table().contains_key(k) ==> exists|i: int|
                            0 <= i < config@.len() && (#[trigger] config@[i]).name@ == k
                },
                Err(e) => exists|i: int|
                    0 <= i < config@.len() && !entry_valid(
                        #[trigger] config@[i],
                        labels_view(env@),
                    ) && (forall|j: int|
                        0 <= j < i ==> entry_valid(#[trigger] config@[j], labels_view(env@)))
                        && e@.message == entry_error(config@[i], labels_view(env@)) && e@.details
                        is None,
            },
    {
        let ghost ev = labels_view(env@);
        let mut manager = AlertManager::new();
        let n = config.len();
        let mut i: usize = 0;
        while i < n
            invariant
                0 <= i <= n,
                n == config@.len(),
                ev == labels_view(env@),
                manager.wf(),
                forall|p: int| 0 <= p < i ==> entry_valid(#[trigger] config@[p], ev),
                forall|p: int|
                    0 <= p < i && (forall|j: int|
                        p < j < i ==> (#[trigger] config@[j]).name@ != config@[p].name@)
                        ==> manager.table().contains_key((#[trigger] config@[p]).name@)
                        && medium_matches(manager.table()[config@[p].name@], config@[p], ev),
                forall|k: Seq<char>|
                    manager.table().contains_key(k) ==> exists|p: int|
                        0 <= p < i && (#[trigger] config@[p]).name@ == k,
            decreases n - i,
        {
            let alerter = &config[i];
            if str_equal(alerter.medium.as_str(), "telegram") {
                let chat_env = match &alerter.chat_env {
                    Some(v) => v.clone(),
                    None => {
                        return Err(
                            Error::basic(
                                "Expected 'chat_env' configuration with Telegram medium"
                                    .to_owned(),
                            ),
                        );
                    },
                };
                let token_env = match &alerter.token_env {
                    Some(v) => v.clone(),
                    None => {
                        return Err(
                            Error::basic(
                                "Expected 'token_env' configuration with Telegram medium"
                                    .to_owned(),
                            ),
                        );
                    },
                };
                let telegram_chat = match lookup_env(env, chat_env.as_str()) {
                    Some(v) => v,
                    None => {
                        return Err(
                            Error::basic(
                                "Expected Telegram chat ID as environment variable".to_owned(),
                            ),
                        );
                    },
                };
                let telegram_token = match lookup_env(env, token_env.as_str()) {
                    Some(v) => v,
                    None => {
                        return Err(
                            Error::basic(
                                "Expected Telegram token as environment variable".to_owned(),
                            ),
                        );
                    },
                };
                let telegram = TelegramAlerter::new(
                    alerter.name.clone(),
                    telegram_chat,
                    telegram_token,
                );
                manager.add_medium(AlertMedium::Telegram(telegram));
            } else if str_equal(alerter.medium.as_str(), "spryng") {
                let recipients_env = match &alerter.recipients_env {
                    Some(v) => v.clone(),
                    None => {
                        return Err(
                            Error::basic(
                                "Expected 'recipients_env' configuration with Spryng medium"
                                    .to_owned(),
                            ),
                        );
                    },
                };
                let token_env = match &alerter.token_env {
                    Some(v) => v.clone(),
                    None => {
                        return Err(
                            Error::basic(
                                "Expected 'token_env' configuration with Spryng medium"
                                    .to_owned(),
                            ),
                        );
                    },
                };
                let spryng_recipients = match lookup_env(env, recipients_env.as_str()) {
                    Some(v) => v,
                    None => {
                        return Err(
                            Error::basic(
                                "Expected Spryng SMS recipients as environment variable"
                                    .to_owned(),
                            ),
                        );
                    },
                };
                let spryng_token = match lookup_env(env, token_env.as_str()) {
                    Some(v) => v,
                    None => {
                        return Err(
                            Error::basic(
                                "Expected Spryng token as environment variable".to_owned(),
                            ),
                        );
                    },
                };
                let formatted_recipients = split_recipients(spryng_recipients.as_str());
                let spryng = SpryngAlerter::new(
                    alerter.name.clone(),
                    spryng_token,
                    formatted_recipients,
                );
                manager.add_medium(AlertMedium::Spryng(spryng));
            } else {
                let mut msg = "Could not find provider ".to_owned();
                msg.append(alerter.medium.as_str());
                return Err(Error::basic(msg));
            }
            i += 1;
        }
        Ok(manager)
    }

    /// Build the request for one alert: through the named medium, or any
    /// registered medium when none is named.
    pub fn alert(&self, requested_medium_id: Option<&str>, message: &str) -> (r: Result<
        AlertRequest,
        Error,
    >)
        requires
            self.wf(),
        ensures
            match requested_medium_id {
                Some(id) => {
                    if self.table().contains_key(id@) {
                        r matches Ok(req) && request_matches(req, self.table()[id@], message@)
                    } else {
                        r matches Err(e) && e@.message == "Could not find requested medium"@
                            && e@.details is None
                    }
                },
                None => {
                    if self.items().len() > 0 {
                        r matches Ok(req) && request_matches(req, self.items()[0].1, message@)
                    } else {
                        r matches Err(e) && e@.message == "Could not find default medium"@
                            && e@.details is None
                    }
                },
            },
    {
        match requested_medium_id {
            Some(id) => match self.mediums.get(id) {
                Some(medium) => Ok(medium.build_request(message)),
                None => Err(Error::basic("Could not find requested medium".to_owned())),
            },
            None => {
                if self.mediums.len() > 0 {
                    let medium = self.mediums.value_at(0);
                    Ok(medium.build_request(message))
                } else {
                    Err(Error::basic("Could not find default medium".to_owned()))
                }
            },
        }
    }

    /// Build the canned test alert for every registered medium, with its
    /// medium's id.
    pub fn test_alert_requests(&self) -> (r: Vec<(String, AlertRequest)>)
        requires
            self.wf(),
        ensures
            r@.len() == self.items().len(),
            forall|i: int|
                0 <= i < r@.len() ==> (#[trigger] r@[i]).0 == self.items()[i].0
                    && request_matches(
                    r@[i].1,
                    self.items()[i].1,
                    "This is a watchdog monitoring test message"@,
                ),
    {
        let mut out: Vec<(String, AlertRequest)> = Vec::new();
        let n = self.mediums.len();
        let mut i: usize = 0;
        while i < n
            invariant
                0 <= i <= n,
                self.wf(),
                n == self.items().len(),
                out@.len() == i,
                forall|j: int|
                    0 <= j < i ==> (#[trigger] out@[j]).0 == self.items()[j].0 && request_matches(
                        out@[j].1,
                        self.items()[j].1,
                        "This is a watchdog monitoring test message"@,
                    ),
            decreases n - i,
        {
            let id = self.mediums.key_at(i).clone();
            let medium = self.mediums.value_at(i);
            let request = medium.build_request("This is a watchdog monitoring test message");
            out.push((id, request));
            i += 1;
        }
        out
    }
}

/// What the manager demands of a medium's HTTP answer: any 4xx or 5xx
/// status is an error naming the medium.
pub fn check_alert_response(status: u16, status_text: &str, medium_id: &str) -> (r: Result<
    (),
    Error,
>)
    ensures
        (400 <= status <= 599) <==> r is Err,
        r matches Err(e) ==> e@.message == "Expected HTTP OK, but received "@ + status_text@
            + " for medium "@ + medium_id@ && e@.details is None,
{
    if 400 <= status && status <= 599 {
        let mut msg = "Expected HTTP OK, but received ".to_owned();
        msg.append(status_text);
        msg.append(" for medium ");
        msg.append(medium_id);
        proof {
            assert(msg@ =~= "Expected HTTP OK, but received "@ + status_text@ + " for medium "@
                + medium_id@);
        }
        Err(Error::basic(msg))
    } else {
        Ok(())
    }
}

} // verus!
