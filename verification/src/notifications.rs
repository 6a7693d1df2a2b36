//! Push notifications: which events are reported, and how.
use crate::text::chars::{to_chars, to_text};
use crate::text::compose::{cat2, cat3, option_text};
use crate::text::search::{
    contains, ends_with, occurs_at, parts_cleanly, replace_absent_is_identity, replace_all, replace_text,
    replacing_respects_borders, replacing_the_whole,
};
use crate::text::trim::{strip_end, strip_end_text, CharClass};
use vstd::prelude::*;

verus! {

broadcast use vstd::string::group_string_axioms;

/// Events that can be reported.
#[derive(Debug, Clone, Copy, PartialEq, Eq, Structural)]
pub enum NotificationEvent {
    /// A character wrote of its own accord.
    AutonomousMessage,
    /// The prompt cache is about to expire.
    CacheWarning,
    /// A conversation was compacted.
    CompactionComplete,
    /// The memory was collated.
    CollationComplete,
    /// Something went wrong.
    Error,
    /// A message is complete.
    MessageComplete,
}

/// How notifications are delivered.
#[derive(Debug, Clone, Copy, PartialEq, Eq, Structural)]
pub enum NotificationBackend {
    /// By the desktop.
    NotifySend,
    /// By an ntfy server.
    Ntfy,
    /// By a command.
    Command,
}

/// Which events are reported.
#[derive(Debug, Clone, Copy, PartialEq, Eq, Structural)]
pub struct NotificationEventsConfig {
    /// A character wrote of its own accord.
    pub autonomous_message: bool,
    /// The prompt cache is about to expire.
    pub cache_warning: bool,
    /// A conversation was compacted.
    pub compaction_complete: bool,
    /// The memory was collated.
    pub collation_complete: bool,
    /// Something went wrong.
    pub error: bool,
    /// A message is complete.
    pub message_complete: bool,
}

/// The ntfy server.
#[derive(Debug)]
pub struct NtfyConfig {
    /// Its address.
    pub url: String,
    /// The topic to post to.
    pub topic: String,
    /// The token to post with; empty where none is needed.
    pub token: String,
}

/// The configuration of notifications.
#[derive(Debug)]
pub struct NotificationsConfig {
    /// Whether anything is reported at all.
    pub enabled: bool,
    /// How notifications are delivered.
    pub backend: NotificationBackend,
    /// The ntfy server.
    pub ntfy: NtfyConfig,
    /// The command, with `{title}` and `{body}` to be filled in.
    pub command_template: String,
    /// The time that a generation must exceed for its end to be reported, in seconds; 0 for any time.
    pub generation_threshold_secs: u64,
    /// Which events are reported.
    pub events: NotificationEventsConfig,
}

/// A notification that is to be delivered.
#[derive(Debug)]
pub struct Notification {
    /// The title.
    pub title: String,
    /// The text.
    pub body: String,
}

/// What is done to deliver a notification.
#[derive(Debug)]
pub enum Delivery {
    /// Run `notify-send` with this title and text.
    NotifySend {
        /// The title.
        title: String,
        /// The text.
        body: String,
    },
    /// Post to an ntfy server.
    Ntfy {
        /// The address.
        url: String,
        /// The authorization header, where one is sent.
        authorization: Option<String>,
        /// The title.
        title: String,
        /// The text.
        body: String,
    },
    /// Run a command line.
    Command {
        /// The command line.
        script: String,
    },
}

/// The text, cut after `max` characters; a cut text ends in an ellipsis.
pub open spec fn shortened(s: Seq<char>, max: int) -> Seq<char> {
    if s.len() <= max {
        s
    } else {
        s.take(max) + "…"@
    }
}

/// The text, cut after `max` characters.
pub fn truncate(s: &str, max: usize) -> (r: String)
    ensures
        r@ == shortened(s@, max as int),
{
    let v = to_chars(s);
    if v.len() <= max {
        s.to_owned()
    } else {
        let head = to_text(&v, 0, max);
        assert(head@ =~= s@.take(max as int));
        cat2(head.as_str(), "…")
    }
}

/// A cut text is at most one character longer than it may be, and begins as the whole text does.
pub proof fn shortened_texts_are_short(s: Seq<char>, max: int)
    requires
        0 <= max,
    ensures
        shortened(s, max).len() <= max + 1,
        forall|i: int| 0 <= i < max && i < s.len() ==> #[trigger] shortened(s, max)[i] == s[i],
{
    reveal_strlit("…");
}

/// The event is reported.
pub open spec fn reports(events: NotificationEventsConfig, event: NotificationEvent) -> bool {
    match event {
        NotificationEvent::AutonomousMessage => events.autonomous_message,
        NotificationEvent::CacheWarning => events.cache_warning,
        NotificationEvent::CompactionComplete => events.compaction_complete,
        NotificationEvent::CollationComplete => events.collation_complete,
        NotificationEvent::Error => events.error,
        NotificationEvent::MessageComplete => events.message_complete,
    }
}

/// The command line for a notification.
pub open spec fn command_line(template: Seq<char>, title: Seq<char>, body: Seq<char>) -> Seq<char> {
    replace_all(replace_all(template, "{title}"@, title), "{body}"@, body)
}

/// The command line for a notification.
pub fn render_command(template: &str, title: &str, body: &str) -> (r: String)
    ensures
        r@ == command_line(template@, title@, body@),
{
    proof {
        reveal_strlit("{title}");
        reveal_strlit("{body}");
    }
    let a = replace_text(template, "{title}", title);
    replace_text(a.as_str(), "{body}", body)
}

/// The address of a topic on an ntfy server.
pub open spec fn topic_url(url: Seq<char>, topic: Seq<char>) -> Seq<char> {
    strip_end(url, CharClass::One('/')) + "/"@ + topic
}

/// How a notification is delivered, or why it cannot be.
pub fn dispatch(config: &NotificationsConfig, title: &str, body: &str) -> (r: Result<
    Delivery,
    String,
>)
    ensures
        match config.backend {
            NotificationBackend::NotifySend => match r {
                Ok(Delivery::NotifySend { title: t, body: b }) => t@ == title@ && b@ == body@,
                _ => false,
            },
            NotificationBackend::Ntfy => match r {
                Ok(Delivery::Ntfy { url, authorization, title: t, body: b }) => {
                    &&& config.ntfy.topic@.len() > 0
                    &&& url@ == topic_url(config.ntfy.url@, config.ntfy.topic@)
                    &&& option_text(authorization) == if config.ntfy.token@.len() == 0 {
                        None
                    } else {
                        Some("Bearer "@ + config.ntfy.token@)
                    }
                    &&& t@ == title@
                    &&& b@ == body@
                },
                Err(e) => config.ntfy.topic@.len() == 0 && e@ == "ntfy topic is not configured"@,
                _ => false,
            },
            NotificationBackend::Command => match r {
                Ok(Delivery::Command { script }) => {
                    &&& config.command_template@.len() > 0
                    &&& script@ == command_line(config.command_template@, title@, body@)
                },
                Err(e) => config.command_template@.len() == 0 && e@
                    == "notification command template is not configured"@,
                _ => false,
            },
        },
{
    match config.backend {
        NotificationBackend::NotifySend => Ok(
            Delivery::NotifySend { title: title.to_owned(), body: body.to_owned() },
        ),
        NotificationBackend::Ntfy => {
            if config.ntfy.topic.as_str().is_empty() {
                return Err("ntfy topic is not configured".to_owned());
            }
            let base = strip_end_text(config.ntfy.url.as_str(), CharClass::One('/'));
            let url = cat3(base.as_str(), "/", config.ntfy.topic.as_str());
            let authorization = if config.ntfy.token.as_str().is_empty() {
                None
            } else {
                Some(cat2("Bearer ", config.ntfy.token.as_str()))
            };
            Ok(
                Delivery::Ntfy {
                    url,
                    authorization,
                    title: title.to_owned(),
                    body: body.to_owned(),
                },
            )
        },
        NotificationBackend::Command => {
            if config.command_template.as_str().is_empty() {
                return Err("notification command template is not configured".to_owned());
            }
            Ok(
                Delivery::Command {
                    script: render_command(config.command_template.as_str(), title, body),
                },
            )
        },
    }
}

/// How many characters of a text are reported.
pub const MAX_BODY_CHARS: usize = 200;

/// Decides what is reported.
#[derive(Debug)]
pub struct NotificationService {
    /// The configuration.
    pub config: NotificationsConfig,
}

impl NotificationService {
    /// A service with a configuration.
    pub fn new(config: NotificationsConfig) -> (r: NotificationService)
        ensures
            r.config == config,
    {
        NotificationService { config }
    }

    /// Whether an event is reported.
    pub fn is_event_enabled(&self, event: NotificationEvent) -> (r: bool)
        ensures
            r == reports(self.config.events, event),
    {
        match event {
            NotificationEvent::AutonomousMessage => self.config.events.autonomous_message,
            NotificationEvent::CacheWarning => self.config.events.cache_warning,
            NotificationEvent::CompactionComplete => self.config.events.compaction_complete,
            NotificationEvent::CollationComplete => self.config.events.collation_complete,
            NotificationEvent::Error => self.config.events.error,
            NotificationEvent::MessageComplete => self.config.events.message_complete,
        }
    }

    /// The notification of an event; none where notifications or this kind of event are switched off.
    pub fn notify(&self, event: NotificationEvent, title: &str, body: &str) -> (r: Option<
        Notification,
    >)
        ensures
            match r {
                Some(n) => {
                    &&& self.config.enabled
                    &&& reports(self.config.events, event)
                    &&& n.title@ == title@
                    &&& n.body@ == shortened(body@, MAX_BODY_CHARS as int)
                },
                None => !self.config.enabled || !reports(self.config.events, event),
            },
    {
        if !self.config.enabled || !self.is_event_enabled(event) {
            return None;
        }
        Some(Notification { title: title.to_owned(), body: truncate(body, MAX_BODY_CHARS) })
    }

    /// A generation took long enough for its end to be reported.
    pub open spec fn took_long(&self, total_ms: u32) -> bool {
        self.config.generation_threshold_secs == 0 || total_ms
            > self.config.generation_threshold_secs * 1000
    }

    /// The notification that a message is complete; none where the time it took does not exceed the threshold.
    pub fn notify_message_complete(&self, title: &str, body: &str, total_ms: u32) -> (r: Option<
        Notification,
    >)
        requires
            self.config.generation_threshold_secs * 1000 <= u64::MAX,
        ensures
            match r {
                Some(n) => {
                    &&& self.took_long(total_ms)
                    &&& self.config.enabled
                    &&& self.config.events.message_complete
                    &&& n.title@ == title@
                    &&& n.body@ == shortened(body@, MAX_BODY_CHARS as int)
                },
                None => !self.took_long(total_ms) || !self.config.enabled
                    || !self.config.events.message_complete,
            },
    {
        let threshold: u64 = self.config.generation_threshold_secs;
        if threshold > 0 && (total_ms as u64) <= threshold * 1000 {
            return None;
        }
        self.notify(NotificationEvent::MessageComplete, title, body)
    }
}

/// Each kind of event follows its own switch.
pub proof fn events_follow_their_switches(events: NotificationEventsConfig)
    ensures
        reports(events, NotificationEvent::AutonomousMessage) == events.autonomous_message,
        reports(events, NotificationEvent::CacheWarning) == events.cache_warning,
        reports(events, NotificationEvent::CompactionComplete) == events.compaction_complete,
        reports(events, NotificationEvent::CollationComplete) == events.collation_complete,
        reports(events, NotificationEvent::Error) == events.error,
        reports(events, NotificationEvent::MessageComplete) == events.message_complete,
{
}

/// A generation is reported without a threshold, and with one just when it took longer; one that took longer
/// than a reported one is reported too.
pub proof fn long_generations_are_reported(service: NotificationService, total_ms: u32, longer_ms: u32)
    ensures
        service.config.generation_threshold_secs == 0 ==> service.took_long(total_ms),
        service.config.generation_threshold_secs > 0 ==> service.took_long(total_ms) == (total_ms as int
            > 1000 * service.config.generation_threshold_secs),
        service.took_long(total_ms) && total_ms <= longer_ms ==> service.took_long(longer_ms),
{
}

proof fn lemma_fill_once(a: Seq<char>, pat: Seq<char>, b: Seq<char>, to: Seq<char>)
    requires
        pat.len() > 1,
        pat[0] == '{',
        forall|k: int| 1 <= k < pat.len() ==> #[trigger] pat[k] != '{',
        !a.contains('{'),
    ensures
        replace_all(a + pat + b, pat, to) == a + to + replace_all(b, pat, to),
{
    assert(parts_cleanly(a, pat + b, pat)) by {
        assert forall|i: int| i < a.len() < i + pat.len() implies !#[trigger] occurs_at(
            a + (pat + b),
            pat,
            i,
        ) by {
            if occurs_at(a + (pat + b), pat, i) {
                assert((a + (pat + b)).subrange(i, i + pat.len())[0] == a[i]);
            }
        }
    }
    assert(parts_cleanly(pat, b, pat)) by {
        assert forall|i: int| i < pat.len() < i + pat.len() implies !#[trigger] occurs_at(
            pat + b,
            pat,
            i,
        ) by {
            if occurs_at(pat + b, pat, i) {
                assert((pat + b).subrange(i, i + pat.len())[0] == pat[i]);
            }
        }
    }
    assert(a + pat + b =~= a + (pat + b));
    replacing_respects_borders(a, pat + b, pat, to);
    replacing_respects_borders(pat, b, pat, to);
    replacing_the_whole(pat, to);
    if contains(a, pat) {
        let i = choose|i: int| #[trigger] occurs_at(a, pat, i);
        assert(a.subrange(i, i + pat.len())[0] == a[i]);
    }
    replace_absent_is_identity(a, pat, to);
    assert(a + (to + replace_all(b, pat, to)) =~= a + to + replace_all(b, pat, to));
}

/// A command gets the title and the text, each in its own place.
pub proof fn commands_get_title_and_text(
    a: Seq<char>,
    b: Seq<char>,
    c: Seq<char>,
    title: Seq<char>,
    body: Seq<char>,
)
    requires
        !a.contains('{') && !b.contains('{') && !c.contains('{') && !title.contains('{'),
    ensures
        command_line(a + "{title}"@ + b + "{body}"@ + c, title, body) == a + title + b + body + c,
{
    reveal_strlit("{title}");
    reveal_strlit("{body}");
    let (t, d) = ("{title}"@, "{body}"@);
    let rest = b + d + c;
    assert(a + t + b + d + c =~= a + t + rest);
    lemma_fill_once(a, t, rest, title);
    if contains(rest, t) {
        let i = choose|i: int| #[trigger] occurs_at(rest, t, i);
        let w = rest.subrange(i, i + t.len());
        assert(w[0] == rest[i] && w[1] == rest[i + 1]);
        if i < b.len() {
            assert(b[i] == '{');
        } else if i >= b.len() + d.len() {
            assert(c[i - b.len() - d.len()] == '{');
        } else {
            assert(rest[i] == d[i - b.len()]);
            assert(rest[i + 1] == 'b' || rest[i] != '{');
        }
    }
    replace_absent_is_identity(rest, t, title);
    let head = a + title + b;
    assert(a + title + rest =~= head + d + c);
    assert(!head.contains('{')) by {
        if head.contains('{') {
            let i = choose|i: int| 0 <= i < head.len() && head[i] == '{';
            if i < a.len() {
                assert(a[i] == '{');
            } else if i < a.len() + title.len() {
                assert(title[i - a.len()] == '{');
            } else {
                assert(b[i - a.len() - title.len()] == '{');
            }
        }
    }
    lemma_fill_once(head, d, c, body);
    if contains(c, d) {
        let i = choose|i: int| #[trigger] occurs_at(c, d, i);
        assert(c.subrange(i, i + d.len())[0] == c[i]);
    }
    replace_absent_is_identity(c, d, body);
}

/// The address of a topic lies below that of the server, whether that ends in a slash or not.
pub proof fn topics_lie_below_the_server(url: Seq<char>, topic: Seq<char>)
    ensures
        topic_url(url.push('/'), topic) == topic_url(url, topic),
        ends_with(topic_url(url, topic), "/"@ + topic),
        url.len() > 0 && url.last() != '/' ==> topic_url(url, topic) == url + "/"@ + topic,
{
    assert(url.push('/').drop_last() =~= url);
    let t = topic_url(url, topic);
    let tail = "/"@ + topic;
    assert(t.subrange(t.len() - tail.len(), t.len() as int) =~= tail);
}

/// A text that is not too long is reported as it is; of any other its beginning is, and an ellipsis shows
/// that it goes on.
pub proof fn only_long_texts_are_cut(s: Seq<char>, max: int)
    requires
        0 <= max,
    ensures
        s.len() <= max ==> shortened(s, max) == s,
        s.len() > max ==> shortened(s, max).len() == max + 1 && shortened(s, max).last() == '…'
            && shortened(s, max).drop_last() == s.subrange(0, max),
        MAX_BODY_CHARS == 200,
{
    reveal_strlit("…");
    if s.len() > max {
        assert(shortened(s, max).drop_last() =~= s.subrange(0, max));
    }
}

}
