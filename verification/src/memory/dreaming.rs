//! Dreaming: a daily sweep over the markdown memory that picks out what is worth keeping.
use crate::clock::{is_stamp, is_time_text, local_file_stamp, local_now_text, rfc3339_instant};
use crate::memory::markdown_store::MarkdownEntry;
use crate::text::chars::to_chars;
use crate::text::compose::{byte_count, byte_len, cat2, cat3, cat5, clone_option, option_text, same_text};
use crate::text::number::{
    decimal, decimal_reads_back, decimal_text, lemma_decimal_digits, numeral_value,
};
use crate::text::path::{files_lie_below_their_directory, join_path, path_below};
use crate::text::search::{
    containing_survives_framing, contains, contains_text, ends_with, occurs_at, slice_text, starts_with,
    starts_with_text, the_middle_is_contained,
};
use crate::text::split::{
    lemma_one_word, lemma_texts_push, lemma_words_add, lines, split_lines, split_words, texts, words,
};
use crate::text::trim::{
    in_class, lemma_strip_end_shape, lemma_strip_start_shape, lowercase, strip_end, strip_start,
    strip_start_text, to_lowercase, trim_text, trimmed, trimmed_start, CharClass,
};
use vstd::prelude::*;
use vstd::string::*;

verus! {

broadcast use vstd::string::group_string_axioms;

/// Errors of dreaming.
#[derive(Debug)]
pub enum DreamingError {
    /// Reading or writing failed.
    Io(String),
    /// The memory failed.
    Memory(String),
    /// The schedule cannot be read.
    Schedule(String),
}

impl DreamingError {
    /// The text that is shown for the error.
    pub open spec fn text(&self) -> Seq<char> {
        match self {
            DreamingError::Io(e) => "io: "@ + e@,
            DreamingError::Memory(e) => "memory: "@ + e@,
            DreamingError::Schedule(e) => "invalid schedule: "@ + e@,
        }
    }

    /// The text that is shown for the error.
    pub fn message(&self) -> (r: String)
        ensures
            r@ == self.text(),
    {
        match self {
            DreamingError::Io(e) => cat2("io: ", e.as_str()),
            DreamingError::Memory(e) => cat2("memory: ", e.as_str()),
            DreamingError::Schedule(e) => cat2("invalid schedule: ", e.as_str()),
        }
    }
}

/// What is known of earlier sweeps.
#[derive(Debug)]
pub struct DreamState {
    /// When the last one ran.
    pub last_run_at: Option<String>,
    /// How many have run.
    pub runs: u64,
}

impl Default for DreamState {
    fn default() -> (r: DreamState)
        ensures
            r.last_run_at is None,
            r.runs == 0,
    {
        DreamState { last_run_at: None, runs: 0 }
    }
}

impl DreamState {
    /// The state after a sweep.
    pub fn after_run(&self, ran_at: &str) -> (r: DreamState)
        requires
            self.runs < u64::MAX,
        ensures
            option_text(r.last_run_at) == Some(ran_at@),
            r.runs == self.runs + 1,
    {
        DreamState { last_run_at: Some(ran_at.to_owned()), runs: self.runs + 1 }
    }
}

/// Something that may be worth keeping.
#[derive(Debug)]
pub struct DreamCandidate {
    /// The file it stands in.
    pub source: String,
    /// The text.
    pub text: String,
    /// How many signs there are that it is worth keeping.
    pub score: u8,
    /// Whether it is kept.
    pub promote: bool,
}

/// Something that may be worth keeping, as plain values.
pub struct DreamCandidateView {
    pub source: Seq<char>,
    pub text: Seq<char>,
    pub score: int,
    pub promote: bool,
}

impl View for DreamCandidate {
    type V = DreamCandidateView;

    open spec fn view(&self) -> DreamCandidateView {
        DreamCandidateView {
            source: self.source@,
            text: self.text@,
            score: self.score as int,
            promote: self.promote,
        }
    }
}

/// The candidates as plain values.
pub open spec fn candidates_view(v: Seq<DreamCandidate>) -> Seq<DreamCandidateView> {
    Seq::new(v.len(), |i: int| v[i]@)
}

/// What a sweep did.
#[derive(Debug)]
pub struct DreamSweepResult {
    /// The character.
    pub character: String,
    /// Whether it was only tried out.
    pub dry_run: bool,
    /// When it ran.
    pub ran_at: String,
    /// What it found.
    pub candidates: Vec<DreamCandidate>,
    /// What it kept.
    pub promoted: Vec<String>,
    /// Where the candidates were stored.
    pub staged_path: Option<String>,
    /// The dream diary.
    pub dreams_path: Option<String>,
    /// The file of what was kept.
    pub memory_path: Option<String>,
}

/// Whether a character dreams, and when.
#[derive(Debug)]
pub struct DreamStatus {
    /// The character.
    pub character: String,
    /// Whether it dreams at all.
    pub enabled: bool,
    /// The schedule.
    pub frequency: String,
    /// When it last did.
    pub last_run_at: Option<String>,
    /// Whether a sweep is due.
    pub due: bool,
    /// Where the state is stored.
    pub state_path: String,
    /// The dream diary.
    pub dreams_path: String,
}

/// Every character is a decimal digit.
pub open spec fn all_digits(s: Seq<char>) -> bool {
    forall|i: int| 0 <= i < s.len() ==> '0' <= #[trigger] s[i] && s[i] <= '9'
}

/// The digits of a number, which may begin with a plus sign.
pub open spec fn number_digits(s: Seq<char>) -> Seq<char> {
    if s.len() > 0 && s[0] == '+' {
        s.skip(1)
    } else {
        s
    }
}

/// The number that a text stands for, where it is one and at most `u32::MAX`.
pub open spec fn parsed_u32(s: Seq<char>) -> Option<u32> {
    let d = number_digits(s);
    if d.len() > 0 && all_digits(d) && numeral_value(d) <= u32::MAX {
        Some(numeral_value(d) as u32)
    } else {
        None
    }
}

proof fn lemma_value_grows(d: Seq<char>, n: int)
    requires
        0 <= n <= d.len(),
        all_digits(d),
    ensures
        numeral_value(d.take(n)) <= numeral_value(d),
    decreases d.len() - n,
{
    if n < d.len() {
        lemma_value_grows(d, n + 1);
        assert(d.take(n + 1).drop_last() =~= d.take(n));
    } else {
        assert(d.take(n) =~= d);
    }
}

/// The number that a text stands for.
pub fn parse_u32(s: &str) -> (r: Option<u32>)
    ensures
        r == parsed_u32(s@),
{
    let v = to_chars(s);
    let start: usize = if v.len() > 0 && v[0] == '+' {
        1
    } else {
        0
    };
    let ghost d = number_digits(s@);
    proof {
        assert(d =~= v@.skip(start as int));
    }
    if start == v.len() {
        return None;
    }
    let mut value: u64 = 0;
    let mut i: usize = start;
    proof {
        assert(d.take(0) =~= Seq::<char>::empty());
    }
    while i < v.len()
        invariant
            start <= i <= v.len(),
            start <= 1,
            v@ == s@,
            d == v@.skip(start as int),
            d == number_digits(s@),
            value == numeral_value(d.take(i - start)),
            value <= u32::MAX,
            forall|k: int| 0 <= k < i - start ==> '0' <= #[trigger] d[k] && d[k] <= '9',
        decreases v.len() - i,
    {
        let c = v[i];
        assert(d[i - start] == c);
        if c < '0' || c > '9' {
            assert(!all_digits(d));
            return None;
        }
        let digit: u64 = (c as u32 - 48) as u64;
        proof {
            assert(d.take(i + 1 - start).drop_last() =~= d.take(i - start));
            assert(d.take(i + 1 - start).last() == c);
        }
        value = value * 10 + digit;
        i += 1;
        if value > 4294967295 {
            proof {
                if all_digits(d) {
                    lemma_value_grows(d, i - start);
                }
            }
            return None;
        }
    }
    proof {
        assert(d.take(i - start) =~= d);
    }
    Some(value as u32)
}

/// A daily schedule: five fields, of which the first two are the minute and the hour and the others are
/// stars.
pub open spec fn daily_schedule(expr: Seq<char>) -> Option<(u32, u32)> {
    let w = words(expr, CharClass::Space);
    if w.len() == 5 && w[2] == "*"@ && w[3] == "*"@ && w[4] == "*"@ {
        match (parsed_u32(w[0]), parsed_u32(w[1])) {
            (Some(minute), Some(hour)) => if minute <= 59 && hour <= 23 {
                Some((minute, hour))
            } else {
                None
            },
            _ => None,
        }
    } else {
        None
    }
}

/// Reads a daily schedule: the minute and the hour.
pub fn parse_daily_cron(expr: &str) -> (r: Result<(u32, u32), DreamingError>)
    ensures
        match r {
            Ok(t) => daily_schedule(expr@) == Some(t),
            Err(e) => daily_schedule(expr@) is None && e is Schedule && e->Schedule_0@ == expr@,
        },
{
    let parts = split_words(expr, CharClass::Space);
    let ghost w = texts(parts@);
    proof {
        assert(w.len() == parts@.len());
        assert forall|k: int| 0 <= k < parts@.len() implies #[trigger] w[k] == parts@[k]@ by {}
    }
    if parts.len() != 5 {
        return Err(DreamingError::Schedule(expr.to_owned()));
    }
    let minute = match parse_u32(parts[0].as_str()) {
        Some(m) => m,
        None => {
            return Err(DreamingError::Schedule(expr.to_owned()));
        },
    };
    let hour = match parse_u32(parts[1].as_str()) {
        Some(h) => h,
        None => {
            return Err(DreamingError::Schedule(expr.to_owned()));
        },
    };
    if minute > 59 || hour > 23 || !same_text(parts[2].as_str(), "*") || !same_text(
        parts[3].as_str(),
        "*",
    ) || !same_text(parts[4].as_str(), "*") {
        return Err(DreamingError::Schedule(expr.to_owned()));
    }
    Ok((minute, hour))
}

/// The moment, the local day, and the moment of the same day at which a time of day comes; the latter is
/// missing where the clock is set forward or back over that time.
#[derive(Debug)]
pub struct LocalClock {
    /// The year.
    pub year: i32,
    /// The day of the year.
    pub ordinal: u32,
    /// The moment, in seconds and nanoseconds.
    pub now: (i64, u32),
    /// When the time of day comes.
    pub due: Option<DueTime>,
}

/// A moment of the local day.
#[derive(Debug)]
pub struct DueTime {
    /// The hour.
    pub hour: u32,
    /// The minute.
    pub minute: u32,
    /// The moment, in seconds and nanoseconds.
    pub moment: (i64, u32),
}

/// `chrono::Local::now`, with `with_hour`, `with_minute`, `with_second`, `with_nanosecond`, `year`,
/// `ordinal`, `hour`, `minute` and `timestamp` of the moments. Claimed is that days are counted from 1, and
/// that the time of day, where it comes, has the hour and the minute asked for and is a whole second;
/// everything else depends on the clock and the time zone.
#[verifier::external_body]
fn local_clock(hour: u32, minute: u32) -> (r: LocalClock)
    ensures
        1 <= r.ordinal <= 366,
        r.due is Some ==> r.due->Some_0.hour == hour && r.due->Some_0.minute == minute
            && r.due->Some_0.moment.1 == 0,
{
    let now = chrono::Local::now();
    let due = chrono::Timelike::with_hour(&now, hour)
        .and_then(|t| chrono::Timelike::with_minute(&t, minute))
        .and_then(|t| chrono::Timelike::with_second(&t, 0))
        .and_then(|t| chrono::Timelike::with_nanosecond(&t, 0));
    LocalClock {
        year: chrono::Datelike::year(&now),
        ordinal: chrono::Datelike::ordinal(&now),
        now: (now.timestamp(), now.timestamp_subsec_nanos()),
        due: due.map(|t| DueTime {
            hour: chrono::Timelike::hour(&t),
            minute: chrono::Timelike::minute(&t),
            moment: (t.timestamp(), t.timestamp_subsec_nanos()),
        }),
    }
}

/// `chrono::DateTime::parse_from_rfc3339` and `DateTime::with_timezone` to local time, with `year` and
/// `ordinal`; the text of the `ParseError` where the text cannot be read. Claimed is when there is a day,
/// and that days are counted from 1; which one it is depends on the time zone.
#[verifier::external_body]
fn local_day(text: &str) -> (r: Result<(i32, u32), String>)
    ensures
        r is Ok == rfc3339_instant(text@) is Some,
        r is Ok ==> 1 <= r->Ok_0.1 <= 366,
{
    match chrono::DateTime::parse_from_rfc3339(text) {
        Ok(t) => {
            let t = t.with_timezone(&chrono::Local);
            Ok((chrono::Datelike::year(&t), chrono::Datelike::ordinal(&t)))
        },
        Err(e) => Err(e.to_string()),
    }
}

/// A moment comes before another.
pub open spec fn is_earlier(a: (i64, u32), b: (i64, u32)) -> bool {
    a.0 < b.0 || (a.0 == b.0 && a.1 < b.1)
}

/// `r` says whether a sweep is due, given the clock and the day of the last sweep: the time of day has
/// come, and there was no sweep on this day yet.
pub open spec fn is_due_answer(
    frequency: Seq<char>,
    clock: LocalClock,
    last_day: Option<Result<(i32, u32), String>>,
    r: Result<bool, DreamingError>,
) -> bool {
    match clock.due {
        None => r is Err && r->Err_0 is Schedule && r->Err_0->Schedule_0@ == frequency,
        Some(due) => if is_earlier(clock.now, due.moment) {
            r == Ok::<bool, DreamingError>(false)
        } else {
            match last_day {
                None => r == Ok::<bool, DreamingError>(true),
                Some(Ok(day)) => r == Ok::<bool, DreamingError>(
                    day.0 != clock.year || day.1 != clock.ordinal,
                ),
                Some(Err(e)) => r is Err && r->Err_0 is Schedule && r->Err_0->Schedule_0 == e,
            }
        },
    }
}

/// The time of day at which the clock looks is that of the schedule.
pub open spec fn follows(clock: LocalClock, frequency: Seq<char>) -> bool {
    match clock.due {
        Some(due) => daily_schedule(frequency) == Some((due.minute, due.hour)),
        None => true,
    }
}

/// The day of the last sweep is there where it is known when that was, and can be told where that can be
/// read.
pub open spec fn is_last_day(
    last_run_at: Option<&str>,
    last_day: Option<Result<(i32, u32), String>>,
) -> bool {
    match (last_run_at, last_day) {
        (Some(t), Some(day)) => day is Ok == rfc3339_instant(t@) is Some,
        (None, None) => true,
        _ => false,
    }
}

/// Whether a sweep is due, given the clock and the day of the last sweep: the time of day has come, and
/// there was no sweep on this day yet.
pub fn is_due_at(
    frequency: &str,
    clock: &LocalClock,
    last_day: Option<Result<(i32, u32), String>>,
) -> (r: Result<bool, DreamingError>)
    ensures
        is_due_answer(frequency@, *clock, last_day, r),
{
    let due = match &clock.due {
        Some(d) => d.moment,
        None => {
            return Err(DreamingError::Schedule(frequency.to_owned()));
        },
    };
    if clock.now.0 < due.0 || (clock.now.0 == due.0 && clock.now.1 < due.1) {
        return Ok(false);
    }
    match last_day {
        None => Ok(true),
        Some(Ok(day)) => Ok(day.0 != clock.year || day.1 != clock.ordinal),
        Some(Err(e)) => Err(DreamingError::Schedule(e)),
    }
}

/// Whether a sweep is due by a daily schedule, given when the last one ran. A schedule that cannot be
/// read is an error.
pub fn is_due(frequency: &str, last_run_at: Option<&str>) -> (r: Result<bool, DreamingError>)
    ensures
        if daily_schedule(frequency@) is None {
            r is Err && r->Err_0 is Schedule && r->Err_0->Schedule_0@ == frequency@
        } else {
            exists|clock: LocalClock, last_day: Option<Result<(i32, u32), String>>|
                follows(clock, frequency@) && is_last_day(last_run_at, last_day)
                    && #[trigger] is_due_answer(frequency@, clock, last_day, r)
        },
{
    match parse_daily_cron(frequency) {
        Err(e) => Err(e),
        Ok((minute, hour)) => {
            let clock = local_clock(hour, minute);
            let last_day = match last_run_at {
                Some(t) => Some(local_day(t)),
                None => None,
            };
            let ghost day = last_day;
            let r = is_due_at(frequency, &clock, last_day);
            proof {
                assert(follows(clock, frequency@));
                assert(is_last_day(last_run_at, day) && is_due_answer(frequency@, clock, day, r));
            }
            r
        },
    }
}

/// The text without any `- ` at its start.
pub open spec fn without_bullets(s: Seq<char>) -> Seq<char>
    decreases s.len(),
{
    if starts_with(s, "- "@) && s.len() >= 2 {
        without_bullets(s.skip(2))
    } else {
        s
    }
}

/// The text of a line, without bullets.
pub open spec fn line_text(line: Seq<char>) -> Seq<char> {
    trimmed(without_bullets(trimmed(line)))
}

/// 1 where `s` holds `pat`.
pub open spec fn sign(s: Seq<char>, pat: Seq<char>) -> int {
    if contains(s, pat) {
        1
    } else {
        0
    }
}

/// How many signs there are that a line is worth keeping.
pub open spec fn line_score(line: Seq<char>) -> int {
    let lower = lowercase(line_text(line));
    sign(lower, "likes"@) + sign(lower, "prefers"@) + sign(lower, "remember"@) + sign(
        lower,
        "important"@,
    ) + sign(lower, "promised"@) + sign(lower, "project"@) + sign(lower, "birthday"@) + sign(
        lower,
        "name is"@,
    ) + if starts_with(line_text(line), "- "@) || starts_with(trimmed_start(line), "- "@) {
        1int
    } else {
        0
    }
}

/// What a line gives: nothing where it is short, a heading, or without any sign.
pub open spec fn line_candidate(source: Seq<char>, line: Seq<char>) -> Option<DreamCandidateView> {
    let text = line_text(line);
    if byte_len(text) < 12 || starts_with(text, "#"@) || line_score(line) == 0 {
        None
    } else {
        Some(
            DreamCandidateView {
                source,
                text,
                score: line_score(line),
                promote: line_score(line) >= 2,
            },
        )
    }
}

/// What the lines of a file give.
pub open spec fn file_candidates(source: Seq<char>, all: Seq<Seq<char>>) -> Seq<DreamCandidateView>
    decreases all.len(),
{
    if all.len() == 0 {
        Seq::empty()
    } else {
        let t = file_candidates(source, all.drop_last());
        match line_candidate(source, all.last()) {
            Some(c) => t.push(c),
            None => t,
        }
    }
}

/// What the first `n` files give.
pub open spec fn all_candidates(entries: Seq<MarkdownEntry>, n: int) -> Seq<DreamCandidateView>
    decreases n,
{
    if n <= 0 {
        Seq::empty()
    } else {
        all_candidates(entries, n - 1) + file_candidates(
            entries[n - 1].path@,
            lines(entries[n - 1].content@),
        )
    }
}

/// How many files a sweep reads.
pub const MAX_FILES: usize = 40;

/// How many candidates a sweep gives.
pub const MAX_CANDIDATES: usize = 50;

/// What a sweep finds.
pub open spec fn sweep_candidates(entries: Seq<MarkdownEntry>) -> Seq<DreamCandidateView> {
    let n = if entries.len() < MAX_FILES {
        entries.len() as int
    } else {
        MAX_FILES as int
    };
    let all = all_candidates(entries, n);
    if all.len() <= MAX_CANDIDATES {
        all
    } else {
        all.take(MAX_CANDIDATES as int)
    }
}

fn text_of_line(line: &str) -> (r: String)
    ensures
        r@ == line_text(line@),
{
    proof {
        reveal_strlit("- ");
    }
    let mut s = trim_text(line);
    let ghost c = s@;
    while starts_with_text(s.as_str(), "- ")
        invariant
            "- "@.len() == 2,
            without_bullets(s@) == without_bullets(c),
        decreases s@.len(),
    {
        let n: usize = s.as_str().unicode_len();
        let t = slice_text(s.as_str(), 2, n);
        assert(t@ =~= s@.skip(2));
        s = t;
    }
    trim_text(s.as_str())
}

fn sign_of(s: &str, pat: &str) -> (r: u8)
    ensures
        r == sign(s@, pat@),
        r <= 1,
{
    if contains_text(s, pat) {
        1
    } else {
        0
    }
}

fn candidate_of_line(source: &str, line: &str) -> (r: Option<DreamCandidate>)
    ensures
        match r {
            Some(c) => line_candidate(source@, line@) == Some(c@),
            None => line_candidate(source@, line@) is None,
        },
{
    let text = text_of_line(line);
    if byte_count(text.as_str()) < 12 || starts_with_text(text.as_str(), "#") {
        return None;
    }
    let lower = to_lowercase(text.as_str());
    let l = lower.as_str();
    let bullet: u8 = if starts_with_text(text.as_str(), "- ") || starts_with_text(
        strip_start_text(line, CharClass::Space).as_str(),
        "- ",
    ) {
        1
    } else {
        0
    };
    let score: u8 = sign_of(l, "likes") + sign_of(l, "prefers") + sign_of(l, "remember") + sign_of(
        l,
        "important",
    ) + sign_of(l, "promised") + sign_of(l, "project") + sign_of(l, "birthday") + sign_of(
        l,
        "name is",
    ) + bullet;
    if score == 0 {
        return None;
    }
    Some(DreamCandidate { source: source.to_owned(), text, score, promote: score >= 2 })
}

/// What a sweep finds in the files, which are sorted by path.
pub fn collect_candidates(entries: &Vec<MarkdownEntry>) -> (r: Vec<DreamCandidate>)
    ensures
        candidates_view(r@) == sweep_candidates(entries@),
{
    let n: usize = if entries.len() < MAX_FILES {
        entries.len()
    } else {
        MAX_FILES
    };
    let mut out: Vec<DreamCandidate> = Vec::new();
    let mut i: usize = 0;
    proof {
        assert(candidates_view(out@) =~= all_candidates(entries@, 0));
    }
    while i < n
        invariant
            i <= n <= entries.len(),
            candidates_view(out@) == all_candidates(entries@, i as int),
        decreases n - i,
    {
        let all = split_lines(entries[i].content.as_str());
        let ghost a = texts(all@);
        let ghost path = entries@[i as int].path@;
        let ghost before = all_candidates(entries@, i as int);
        let mut k: usize = 0;
        proof {
            assert(candidates_view(out@) =~= before + file_candidates(path, a.take(0)));
        }
        while k < all.len()
            invariant
                k <= all.len(),
                i < entries.len(),
                a == texts(all@),
                path == entries@[i as int].path@,
                candidates_view(out@) == before + file_candidates(path, a.take(k as int)),
            decreases all.len() - k,
        {
            proof {
                assert(a.take(k + 1).drop_last() =~= a.take(k as int));
                assert(a.take(k + 1).last() == all@[k as int]@);
            }
            match candidate_of_line(entries[i].path.as_str(), all[k].as_str()) {
                Some(c) => {
                    proof {
                        assert(candidates_view(out@.push(c)) =~= candidates_view(out@).push(c@));
                        assert((before + file_candidates(path, a.take(k as int))).push(c@)
                            =~= before + file_candidates(path, a.take(k + 1)));
                    }
                    out.push(c);
                },
                None => {},
            }
            k += 1;
        }
        proof {
            assert(a.take(k as int) =~= a);
        }
        i += 1;
    }
    let ghost found = candidates_view(out@);
    if out.len() > MAX_CANDIDATES {
        out.truncate(MAX_CANDIDATES);
        assert(candidates_view(out@) =~= found.take(MAX_CANDIDATES as int));
    }
    out
}

/// The texts of the candidates that are kept.
pub open spec fn promoted_texts(c: Seq<DreamCandidateView>) -> Seq<Seq<char>>
    decreases c.len(),
{
    if c.len() == 0 {
        Seq::empty()
    } else {
        let t = promoted_texts(c.drop_last());
        if c.last().promote {
            t.push(c.last().text)
        } else {
            t
        }
    }
}

/// The texts of the candidates that are kept.
pub fn promoted_of(candidates: &Vec<DreamCandidate>) -> (r: Vec<String>)
    ensures
        texts(r@) == promoted_texts(candidates_view(candidates@)),
{
    let ghost c = candidates_view(candidates@);
    let mut out: Vec<String> = Vec::new();
    let mut i: usize = 0;
    proof {
        assert(texts(out@) =~= promoted_texts(c.take(0)));
    }
    while i < candidates.len()
        invariant
            i <= candidates.len(),
            c == candidates_view(candidates@),
            texts(out@) == promoted_texts(c.take(i as int)),
        decreases candidates.len() - i,
    {
        proof {
            assert(c.take(i + 1).drop_last() =~= c.take(i as int));
            assert(c.take(i + 1).last() == candidates@[i as int]@);
        }
        if candidates[i].promote {
            let t = candidates[i].text.clone();
            proof {
                lemma_texts_push(out@, t);
            }
            out.push(t);
        }
        i += 1;
    }
    proof {
        assert(c.take(i as int) =~= c);
    }
    out
}

/// One candidate in the report.
pub open spec fn report_line(c: DreamCandidateView) -> Seq<char> {
    "- "@ + c.text + " (score "@ + decimal(c.score as nat) + ", source `"@ + c.source + "`)\n"@
}

/// The first `n` candidates in the report.
pub open spec fn report_lines(c: Seq<DreamCandidateView>, n: int) -> Seq<char>
    decreases n,
{
    if n <= 0 {
        Seq::empty()
    } else {
        report_lines(c, n - 1) + report_line(c[n - 1])
    }
}

/// Texts as a list, each behind `head` and with a line feed at its end.
pub open spec fn listed(head: Seq<char>, items: Seq<Seq<char>>) -> Seq<char>
    decreases items.len(),
{
    if items.len() == 0 {
        Seq::empty()
    } else {
        listed(head, items.drop_last()) + head + items.last() + "\n"@
    }
}

/// How many candidates the report shows.
pub const MAX_REPORTED: usize = 12;

/// The dream diary with the report of a sweep added.
pub open spec fn dream_report(
    existing: Option<&str>,
    ran_at: Seq<char>,
    candidates: Seq<DreamCandidateView>,
    promoted: Seq<Seq<char>>,
) -> Seq<char> {
    let n = if candidates.len() < MAX_REPORTED {
        candidates.len() as int
    } else {
        MAX_REPORTED as int
    };
    (match existing {
        Some(t) => t@,
        None => "# Dreams\n\n"@,
    }) + "## "@ + ran_at + " - dream sweep\n\n"@ + "### Light\n\n"@ + (if candidates.len() == 0 {
        "- No candidate memory signals found.\n"@
    } else {
        report_lines(candidates, n)
    }) + "\n### REM\n\n"@
        + "- Reviewed recent markdown memory for durable signals and contradictions.\n"@
        + "\n### Deep\n\n"@ + (if promoted.len() == 0 {
        "- Nothing met the promotion threshold.\n\n"@
    } else {
        listed("- Promoted: "@, promoted) + "\n"@
    })
}

fn list_items(head: &str, items: &Vec<String>) -> (r: String)
    ensures
        r@ == listed(head@, texts(items@)),
{
    let ghost t = texts(items@);
    let mut out = String::new();
    let mut i: usize = 0;
    proof {
        assert(t.take(0) =~= Seq::<Seq<char>>::empty());
    }
    while i < items.len()
        invariant
            i <= items.len(),
            t == texts(items@),
            out@ == listed(head@, t.take(i as int)),
        decreases items.len() - i,
    {
        proof {
            assert(t.take(i + 1).drop_last() =~= t.take(i as int));
            assert(t.take(i + 1).last() == items@[i as int]@);
        }
        out.append(head);
        out.append(items[i].as_str());
        out.append("\n");
        i += 1;
    }
    proof {
        assert(t.take(i as int) =~= t);
    }
    out
}

/// The dream diary with the report of a sweep added; the diary is given where there is one.
pub fn append_dream_report(
    existing: Option<&str>,
    ran_at: &str,
    candidates: &Vec<DreamCandidate>,
    promoted: &Vec<String>,
) -> (r: String)
    ensures
        r@ == dream_report(existing, ran_at@, candidates_view(candidates@), texts(promoted@)),
{
    let ghost c = candidates_view(candidates@);
    let mut body = match existing {
        Some(t) => t.to_owned(),
        None => "# Dreams\n\n".to_owned(),
    };
    body.append("## ");
    body.append(ran_at);
    body.append(" - dream sweep\n\n");
    body.append("### Light\n\n");
    if candidates.len() == 0 {
        body.append("- No candidate memory signals found.\n");
    } else {
        let n: usize = if candidates.len() < MAX_REPORTED {
            candidates.len()
        } else {
            MAX_REPORTED
        };
        let mut shown = String::new();
        let mut i: usize = 0;
        while i < n
            invariant
                i <= n <= candidates.len(),
                c == candidates_view(candidates@),
                shown@ == report_lines(c, i as int),
            decreases n - i,
        {
            let x = &candidates[i];
            let score = decimal_text(x.score as u64);
            let head = cat5("- ", x.text.as_str(), " (score ", score.as_str(), ", source `");
            let line = cat3(head.as_str(), x.source.as_str(), "`)\n");
            assert(c[i as int] == x@);
            shown.append(line.as_str());
            i += 1;
        }
        body.append(shown.as_str());
    }
    body.append("\n### REM\n\n");
    body.append("- Reviewed recent markdown memory for durable signals and contradictions.\n");
    body.append("\n### Deep\n\n");
    proof {
        assert(texts(promoted@).len() == promoted@.len());
    }
    if promoted.len() == 0 {
        body.append("- Nothing met the promotion threshold.\n\n");
    } else {
        let items = cat2(list_items("- Promoted: ", promoted).as_str(), "\n");
        body.append(items.as_str());
    }
    body
}

/// The file of what is kept, with what a sweep keeps added.
pub open spec fn promotions(
    existing: Option<&str>,
    ran_at: Seq<char>,
    promoted: Seq<Seq<char>>,
) -> Seq<char> {
    (match existing {
        Some(t) => t@,
        None => "# Memory\n\n"@,
    }) + "## Dream consolidation - "@ + ran_at + "\n\n"@ + listed("- "@, promoted) + "\n"@
}

/// The file of what is kept, with what a sweep keeps added; none where it keeps nothing.
pub fn append_memory_promotions(existing: Option<&str>, ran_at: &str, promoted: &Vec<String>) -> (r:
    Option<String>)
    ensures
        option_text(r) == if promoted@.len() == 0 {
            None
        } else {
            Some(promotions(existing, ran_at@, texts(promoted@)))
        },
{
    if promoted.len() == 0 {
        return None;
    }
    let mut body = match existing {
        Some(t) => t.to_owned(),
        None => "# Memory\n\n".to_owned(),
    };
    body.append("## Dream consolidation - ");
    body.append(ran_at);
    body.append("\n\n");
    body.append(list_items("- ", promoted).as_str());
    body.append("\n");
    Some(body)
}

/// Whether a sweep is made: always when forced or tried out, otherwise when it is due.
pub fn runs_sweep(dry_run: bool, force: bool, due: bool) -> (r: bool)
    ensures
        r == (force || dry_run || due),
{
    force || dry_run || due
}

/// The file of the state.
pub fn state_path(memory_dir: &str) -> (r: String)
    ensures
        r@ == path_below(path_below(memory_dir@, ".dreams"@), "state.json"@),
{
    join_path(join_path(memory_dir, ".dreams").as_str(), "state.json")
}

/// The name of the file for the candidates of a sweep.
pub fn staged_name(stamp: &str) -> (r: String)
    ensures
        r@ == ".dreams/candidates-"@ + stamp@ + ".json"@,
{
    cat3(".dreams/candidates-", stamp, ".json")
}

/// `r` is the result of a sweep over the files at a time: what was found and kept, and, unless it was only
/// tried out, the files that are written.
pub open spec fn is_sweep_result(
    r: DreamSweepResult,
    entries: Seq<MarkdownEntry>,
    character: Seq<char>,
    dry_run: bool,
    memory_dir: Seq<char>,
    ran_at: Seq<char>,
    stamp: Seq<char>,
) -> bool {
    &&& r.character@ == character
    &&& r.dry_run == dry_run
    &&& r.ran_at@ == ran_at
    &&& candidates_view(r.candidates@) == sweep_candidates(entries)
    &&& texts(r.promoted@) == promoted_texts(sweep_candidates(entries))
    &&& option_text(r.staged_path) == if dry_run {
        None
    } else {
        Some(path_below(memory_dir, ".dreams/candidates-"@ + stamp + ".json"@))
    }
    &&& option_text(r.dreams_path) == if dry_run {
        None
    } else {
        Some(path_below(memory_dir, "DREAMS.md"@))
    }
    &&& option_text(r.memory_path) == if dry_run {
        None
    } else {
        Some(path_below(memory_dir, "MEMORY.md"@))
    }
}

/// The result of a sweep over the files at a given time.
pub fn run_sweep_at(
    entries: &Vec<MarkdownEntry>,
    character: &str,
    dry_run: bool,
    memory_dir: &str,
    ran_at: &str,
    stamp: &str,
) -> (r: DreamSweepResult)
    ensures
        is_sweep_result(r, entries@, character@, dry_run, memory_dir@, ran_at@, stamp@),
{
    let candidates = collect_candidates(entries);
    let promoted = promoted_of(&candidates);
    let (staged_path, dreams_path, memory_path) = if dry_run {
        (None, None, None)
    } else {
        (
            Some(join_path(memory_dir, staged_name(stamp).as_str())),
            Some(join_path(memory_dir, "DREAMS.md")),
            Some(join_path(memory_dir, "MEMORY.md")),
        )
    };
    DreamSweepResult {
        character: character.to_owned(),
        dry_run,
        ran_at: ran_at.to_owned(),
        candidates,
        promoted,
        staged_path,
        dreams_path,
        memory_path,
    }
}

/// The result of a sweep over the files now.
pub fn run_sweep(entries: &Vec<MarkdownEntry>, character: &str, dry_run: bool, memory_dir: &str) -> (r:
    DreamSweepResult)
    ensures
        exists|ran_at: Seq<char>, stamp: Seq<char>|
            is_time_text(ran_at) && is_stamp(stamp, '-') && #[trigger] is_sweep_result(
                r,
                entries@,
                character@,
                dry_run,
                memory_dir@,
                ran_at,
                stamp,
            ),
{
    let ran_at = local_now_text();
    let stamp = local_file_stamp();
    run_sweep_at(entries, character, dry_run, memory_dir, ran_at.as_str(), stamp.as_str())
}

/// The status of a character's dreaming. `due` is what the schedule says.
pub fn dream_status(
    memory_dir: &str,
    character: &str,
    enabled: bool,
    frequency: &str,
    state: &DreamState,
    due: bool,
) -> (r: DreamStatus)
    ensures
        r.character@ == character@,
        r.enabled == enabled,
        r.frequency@ == frequency@,
        option_text(r.last_run_at) == option_text(state.last_run_at),
        r.due == (enabled && due),
        r.state_path@ == path_below(path_below(memory_dir@, ".dreams"@), "state.json"@),
        r.dreams_path@ == path_below(memory_dir@, "DREAMS.md"@),
{
    DreamStatus {
        character: character.to_owned(),
        enabled,
        frequency: frequency.to_owned(),
        last_run_at: clone_option(&state.last_run_at),
        due: enabled && due,
        state_path: state_path(memory_dir),
        dreams_path: join_path(memory_dir, "DREAMS.md"),
    }
}

proof fn lemma_file_candidates_scored(source: Seq<char>, all: Seq<Seq<char>>)
    ensures
        forall|i: int|
            0 <= i < file_candidates(source, all).len() ==> is_scored(
                #[trigger] file_candidates(source, all)[i],
            ),
    decreases all.len(),
{
    if all.len() > 0 {
        lemma_file_candidates_scored(source, all.drop_last());
        let before = file_candidates(source, all.drop_last());
        let after = file_candidates(source, all);
        assert forall|i: int| 0 <= i < after.len() implies is_scored(#[trigger] after[i]) by {
            if i < before.len() {
                assert(after[i] == before[i]);
            }
        }
    }
}

/// A candidate has between one and nine signs, and is kept exactly where it has two.
pub open spec fn is_scored(c: DreamCandidateView) -> bool {
    1 <= c.score <= 9 && c.promote == (c.score >= 2)
}

proof fn lemma_all_candidates_scored(entries: Seq<MarkdownEntry>, n: int)
    ensures
        forall|i: int|
            0 <= i < all_candidates(entries, n).len() ==> is_scored(
                #[trigger] all_candidates(entries, n)[i],
            ),
    decreases n,
{
    if n > 0 {
        lemma_all_candidates_scored(entries, n - 1);
        lemma_file_candidates_scored(entries[n - 1].path@, lines(entries[n - 1].content@));
        let a = all_candidates(entries, n - 1);
        let b = file_candidates(entries[n - 1].path@, lines(entries[n - 1].content@));
        assert forall|i: int| 0 <= i < (a + b).len() implies is_scored(#[trigger] (a + b)[i]) by {
            if i < a.len() {
                assert((a + b)[i] == a[i]);
            } else {
                assert((a + b)[i] == b[i - a.len()]);
            }
        }
    }
}

/// A sweep only keeps what has at least two signs, and never gives more than fifty candidates.
pub proof fn only_strong_candidates_are_kept(entries: Seq<MarkdownEntry>)
    ensures
        sweep_candidates(entries).len() <= MAX_CANDIDATES,
        forall|i: int|
            0 <= i < sweep_candidates(entries).len() ==> is_scored(
                #[trigger] sweep_candidates(entries)[i],
            ),
{
    let n = if entries.len() < MAX_FILES {
        entries.len() as int
    } else {
        MAX_FILES as int
    };
    lemma_all_candidates_scored(entries, n);
    let all = all_candidates(entries, n);
    assert forall|i: int| 0 <= i < sweep_candidates(entries).len() implies is_scored(
        #[trigger] sweep_candidates(entries)[i],
    ) by {
        assert(sweep_candidates(entries)[i] == all[i]);
    }
}

proof fn lemma_listed(head: Seq<char>, items: Seq<Seq<char>>, i: int)
    requires
        0 <= i < items.len(),
    ensures
        listed(head, items) == listed(head, items.take(i)) + (head + items[i] + "\n"@) + listed(
            head,
            items.skip(i + 1),
        ),
    decreases items.len(),
{
    let t = items.drop_last();
    let line = head + items[i] + "\n"@;
    if i == items.len() - 1 {
        assert(items.take(i) =~= t);
        assert(items.skip(i + 1) =~= Seq::<Seq<char>>::empty());
        assert(listed(head, t) + line + Seq::<char>::empty() =~= listed(head, t) + head + items[i]
            + "\n"@);
    } else {
        lemma_listed(head, t, i);
        assert(t.take(i) =~= items.take(i));
        let rest = items.skip(i + 1);
        assert(rest.drop_last() =~= t.skip(i + 1));
        assert(rest.last() == items.last());
        let a = listed(head, items.take(i));
        let b = listed(head, t.skip(i + 1));
        assert(listed(head, items) =~= a + line + b + head + items.last() + "\n"@);
        assert(listed(head, rest) == b + head + items.last() + "\n"@);
        assert(a + line + b + head + items.last() + "\n"@ =~= a + line + (b + head + items.last()
            + "\n"@));
    }
}

/// Nothing that was kept before is lost: what a sweep keeps is written behind all that the file held, under
/// the time of the sweep, each item on its line and in order.
pub proof fn promotions_are_added_to_what_was_kept(
    existing: Option<&str>,
    ran_at: Seq<char>,
    promoted: Seq<Seq<char>>,
    i: int,
)
    ensures
        existing is Some ==> starts_with(promotions(existing, ran_at, promoted), existing->Some_0@),
        existing is None ==> starts_with(promotions(existing, ran_at, promoted), "# Memory\n\n"@),
        ({
            let old_len = match existing {
                Some(t) => t@.len(),
                None => "# Memory\n\n"@.len(),
            };
            let added = promotions(existing, ran_at, promoted).skip(old_len as int);
            &&& contains(added, ran_at)
            &&& 0 <= i < promoted.len() ==> contains(added, "- "@ + promoted[i] + "\n"@)
        }),
{
    let before = match existing {
        Some(t) => t@,
        None => "# Memory\n\n"@,
    };
    let all = promotions(existing, ran_at, promoted);
    let items = listed("- "@, promoted);
    let head = "## Dream consolidation - "@;
    let added = head + ran_at + "\n\n"@ + items + "\n"@;
    assert(all =~= before + added);
    assert(all.subrange(0, before.len() as int) =~= before);
    assert(all.skip(before.len() as int) =~= added);
    let rest = "\n\n"@ + items + "\n"@;
    assert(added =~= head + ran_at + rest);
    the_middle_is_contained(head, ran_at, rest);
    if 0 <= i < promoted.len() {
        lemma_listed("- "@, promoted, i);
        let line = "- "@ + promoted[i] + "\n"@;
        let a = head + ran_at + "\n\n"@ + listed("- "@, promoted.take(i));
        let b = listed("- "@, promoted.skip(i + 1)) + "\n"@;
        assert(added =~= a + line + b);
        the_middle_is_contained(a, line, b);
    }
}

proof fn lemma_report_line(c: Seq<DreamCandidateView>, n: int, i: int)
    requires
        0 <= i < n,
    ensures
        contains(report_lines(c, n), c[i].text),
        contains(report_lines(c, n), c[i].source),
    decreases n,
{
    let before = report_lines(c, n - 1);
    let x = c[n - 1];
    let line = report_line(x);
    let e = Seq::<char>::empty();
    if i < n - 1 {
        lemma_report_line(c, n - 1, i);
        containing_survives_framing(e, before, line, c[i].text);
        containing_survives_framing(e, before, line, c[i].source);
        assert(e + before + line =~= before + line);
    } else {
        let score = decimal(x.score as nat);
        let tail = " (score "@ + score + ", source `"@ + x.source + "`)\n"@;
        assert(before + line =~= (before + "- "@) + x.text + tail);
        the_middle_is_contained(before + "- "@, x.text, tail);
        let a = before + "- "@ + x.text + " (score "@ + score + ", source `"@;
        assert(before + line =~= a + x.source + "`)\n"@);
        the_middle_is_contained(a, x.source, "`)\n"@);
    }
}

/// The diary keeps all it held, and the report behind it shows the time of the sweep, the first twelve
/// candidates with their files, and everything that was kept.
#[verifier::spinoff_prover]
#[verifier::rlimit(50)]
pub proof fn reports_are_added_to_the_diary(
    existing: Option<&str>,
    ran_at: Seq<char>,
    candidates: Seq<DreamCandidateView>,
    promoted: Seq<Seq<char>>,
    i: int,
)
    ensures
        existing is Some ==> starts_with(
            dream_report(existing, ran_at, candidates, promoted),
            existing->Some_0@,
        ),
        ({
            let old_len = match existing {
                Some(t) => t@.len(),
                None => "# Dreams\n\n"@.len(),
            };
            let added = dream_report(existing, ran_at, candidates, promoted).skip(old_len as int);
            &&& contains(added, ran_at)
            &&& 0 <= i < candidates.len() && i < 12 ==> contains(added, candidates[i].text) && contains(
                added,
                candidates[i].source,
            )
            &&& 0 <= i < promoted.len() ==> contains(added, "- Promoted: "@ + promoted[i] + "\n"@)
        }),
{
    let before = match existing {
        Some(t) => t@,
        None => "# Dreams\n\n"@,
    };
    let n = if candidates.len() < MAX_REPORTED {
        candidates.len() as int
    } else {
        MAX_REPORTED as int
    };
    let light = if candidates.len() == 0 {
        "- No candidate memory signals found.\n"@
    } else {
        report_lines(candidates, n)
    };
    let deep = if promoted.len() == 0 {
        "- Nothing met the promotion threshold.\n\n"@
    } else {
        listed("- Promoted: "@, promoted) + "\n"@
    };
    let all = dream_report(existing, ran_at, candidates, promoted);
    let added = report_section(ran_at, light, deep);
    assert(all == before + added) by {
        lemma_section_is_added(before, ran_at, light, deep);
    }
    lemma_section_holds(ran_at, light, deep);
    lemma_prefix(all, before, added);
    if 0 <= i < candidates.len() && i < 12 {
        lemma_report_line(candidates, n, i);
        lemma_contains_transitive(added, light, candidates[i].text);
        lemma_contains_transitive(added, light, candidates[i].source);
    }
    if 0 <= i < promoted.len() {
        lemma_deep_line(promoted, i);
        lemma_contains_transitive(added, deep, "- Promoted: "@ + promoted[i] + "\n"@);
    }
}

proof fn lemma_deep_line(promoted: Seq<Seq<char>>, i: int)
    requires
        0 <= i < promoted.len(),
    ensures
        contains(
            listed("- Promoted: "@, promoted) + "\n"@,
            "- Promoted: "@ + promoted[i] + "\n"@,
        ),
{
    let line = "- Promoted: "@ + promoted[i] + "\n"@;
    lemma_listed("- Promoted: "@, promoted, i);
    let a = listed("- Promoted: "@, promoted.take(i));
    let b = listed("- Promoted: "@, promoted.skip(i + 1));
    assert(a + line + b + "\n"@ =~= a + line + (b + "\n"@));
    the_middle_is_contained(a, line, b + "\n"@);
}

proof fn lemma_prefix(all: Seq<char>, before: Seq<char>, added: Seq<char>)
    requires
        all == before + added,
    ensures
        starts_with(all, before),
        all.skip(before.len() as int) == added,
{
    assert(all.subrange(0, before.len() as int) =~= before);
    assert(all.skip(before.len() as int) =~= added);
}

#[verifier::opaque]
spec fn report_section(ran_at: Seq<char>, light: Seq<char>, deep: Seq<char>) -> Seq<char> {
    "## "@ + ran_at + (" - dream sweep\n\n"@ + "### Light\n\n"@) + light + ("\n### REM\n\n"@
        + "- Reviewed recent markdown memory for durable signals and contradictions.\n"@
        + "\n### Deep\n\n"@) + deep
}

proof fn lemma_section_is_added(before: Seq<char>, ran_at: Seq<char>, light: Seq<char>, deep: Seq<char>)
    ensures
        before + "## "@ + ran_at + " - dream sweep\n\n"@ + "### Light\n\n"@ + light
            + "\n### REM\n\n"@
            + "- Reviewed recent markdown memory for durable signals and contradictions.\n"@
            + "\n### Deep\n\n"@ + deep == before + report_section(ran_at, light, deep),
{
    reveal(report_section);
    assert(before + "## "@ + ran_at + " - dream sweep\n\n"@ + "### Light\n\n"@ + light
        + "\n### REM\n\n"@
        + "- Reviewed recent markdown memory for durable signals and contradictions.\n"@
        + "\n### Deep\n\n"@ + deep =~= before + report_section(ran_at, light, deep));
}

proof fn lemma_section_holds(ran_at: Seq<char>, light: Seq<char>, deep: Seq<char>)
    ensures
        contains(report_section(ran_at, light, deep), ran_at),
        contains(report_section(ran_at, light, deep), light),
        contains(report_section(ran_at, light, deep), deep),
{
    reveal(report_section);
    let s = report_section(ran_at, light, deep);
    let top = " - dream sweep\n\n"@ + "### Light\n\n"@;
    let rem = "\n### REM\n\n"@
        + "- Reviewed recent markdown memory for durable signals and contradictions.\n"@
        + "\n### Deep\n\n"@;
    assert(s =~= "## "@ + ran_at + (top + light + rem + deep));
    the_middle_is_contained("## "@, ran_at, top + light + rem + deep);
    assert(s =~= ("## "@ + ran_at + top) + light + (rem + deep));
    the_middle_is_contained("## "@ + ran_at + top, light, rem + deep);
    let a = "## "@ + ran_at + top + light + rem;
    assert(s =~= a + deep + Seq::<char>::empty());
    the_middle_is_contained(a, deep, Seq::empty());
}

proof fn lemma_contains_transitive(s: Seq<char>, part: Seq<char>, pat: Seq<char>)
    requires
        contains(s, part),
        contains(part, pat),
    ensures
        contains(s, pat),
{
    let i = choose|i: int| #[trigger] occurs_at(s, part, i);
    let (a, b) = (s.take(i), s.skip(i + part.len()));
    assert(s =~= a + part + b);
    containing_survives_framing(a, part, b, pat);
}

/// A word that is a sign of something worth keeping.
pub open spec fn is_sign(w: Seq<char>) -> bool {
    ||| w == "likes"@
    ||| w == "prefers"@
    ||| w == "remember"@
    ||| w == "important"@
    ||| w == "promised"@
    ||| w == "project"@
    ||| w == "birthday"@
    ||| w == "name is"@
}

/// A line that says something: its text has at least twelve bytes and is no heading.
pub open spec fn says_something(line: Seq<char>) -> bool {
    byte_len(line_text(line)) >= 12 && !starts_with(line_text(line), "#"@)
}

/// A line is a candidate just when it says something and holds a sign or is a bullet; it is kept where it
/// holds two different signs, or one and is a bullet; and the candidate is the text of the line.
pub proof fn signs_make_candidates(
    source: Seq<char>,
    line: Seq<char>,
    v: Seq<char>,
    w: Seq<char>,
)
    requires
        is_sign(v),
        is_sign(w),
        v != w,
    ensures
        !says_something(line) ==> line_candidate(source, line) is None,
        says_something(line) && contains(lowercase(line_text(line)), v) ==> line_candidate(
            source,
            line,
        ) is Some,
        says_something(line) && contains(lowercase(line_text(line)), v) && contains(
            lowercase(line_text(line)),
            w,
        ) ==> line_candidate(source, line) is Some && line_candidate(source, line)->Some_0.promote,
        says_something(line) && contains(lowercase(line_text(line)), v) && starts_with(
            trimmed_start(line),
            "- "@,
        ) ==> line_candidate(source, line) is Some && line_candidate(source, line)->Some_0.promote,
        line_candidate(source, line) is Some ==> {
            let c = line_candidate(source, line)->Some_0;
            c.source == source && c.text == line_text(line)
        },
{
    reveal_strlit("likes");
    reveal_strlit("prefers");
    reveal_strlit("remember");
    reveal_strlit("important");
    reveal_strlit("promised");
    reveal_strlit("project");
    reveal_strlit("birthday");
    reveal_strlit("name is");
    assert("likes"@[0] == 'l' && "prefers"@[1] == 'r' && "remember"@[0] == 'r' && "important"@[0] == 'i'
        && "promised"@.len() == 8 && "project"@.len() == 7 && "prefers"@.len() == 7 && "birthday"@[0]
        == 'b' && "name is"@[0] == 'n' && "prefers"@[2] == 'e' && "project"@[2] == 'o');
}

/// A line without any sign that is no bullet is no candidate.
pub proof fn lines_without_signs_are_passed_over(source: Seq<char>, line: Seq<char>)
    requires
        forall|w: Seq<char>| #[trigger] is_sign(w) ==> !contains(lowercase(line_text(line)), w),
        !starts_with(trimmed_start(line), "- "@),
        !starts_with(line_text(line), "- "@),
    ensures
        line_candidate(source, line) is None,
{
    assert(is_sign("likes"@) && is_sign("prefers"@) && is_sign("remember"@) && is_sign("important"@));
    assert(is_sign("promised"@) && is_sign("project"@) && is_sign("birthday"@) && is_sign("name is"@));
}

/// A bullet is no part of the text of a line, however often it is repeated.
pub proof fn bullets_are_no_text(text: Seq<char>)
    requires
        trimmed(text) == text,
        !starts_with(text, "- "@),
        text.len() > 0,
    ensures
        line_text(text) == text,
        line_text("- "@ + text) == text,
{
    reveal_strlit("- ");
    let s = "- "@ + text;
    lemma_strip_start_shape(text, CharClass::Space);
    lemma_strip_end_shape(strip_start(text, CharClass::Space), CharClass::Space);
    assert(s[0] == '-');
    assert(s.last() == text.last());
    assert(strip_end(text, CharClass::Space) == text) by {
        assert(trimmed(text).len() > 0);
    }
    assert(!in_class(CharClass::Space, text.last()));
    assert(trimmed(s) == s);
    assert(s.subrange(0, 2) =~= "- "@);
    assert(s.skip(2) =~= text);
    assert(without_bullets(text) == text);
    assert(without_bullets(s) == without_bullets(s.skip(2)));
}

/// The lines of a file are looked at in order, each by itself.
pub proof fn files_are_read_line_by_line(
    source: Seq<char>,
    a: Seq<Seq<char>>,
    b: Seq<Seq<char>>,
    line: Seq<char>,
)
    ensures
        file_candidates(source, a + b) == file_candidates(source, a) + file_candidates(source, b),
        line_candidate(source, line) is None ==> file_candidates(source, seq![line]).len() == 0,
        line_candidate(source, line) is Some ==> file_candidates(source, seq![line]) == seq![
            line_candidate(source, line)->Some_0,
        ],
    decreases b.len(),
{
    reveal_with_fuel(file_candidates, 2);
    let one = seq![line];
    assert(one.drop_last() =~= Seq::<Seq<char>>::empty());
    if line_candidate(source, line) is Some {
        assert(file_candidates(source, one) =~= seq![line_candidate(source, line)->Some_0]);
    }
    if b.len() == 0 {
        assert(a + b =~= a);
        assert(file_candidates(source, a) + file_candidates(source, b) =~= file_candidates(source, a));
    } else {
        files_are_read_line_by_line(source, a, b.drop_last(), line);
        assert((a + b).drop_last() =~= a + b.drop_last());
        assert((a + b).last() == b.last());
        assert(file_candidates(source, a + b) =~= file_candidates(source, a) + file_candidates(
            source,
            b,
        ));
    }
}

proof fn lemma_candidates_of_files(a: Seq<MarkdownEntry>, b: Seq<MarkdownEntry>, n: int)
    requires
        0 <= n <= a.len(),
        n <= b.len(),
        forall|k: int| 0 <= k < n ==> #[trigger] a[k] == b[k],
    ensures
        all_candidates(a, n) == all_candidates(b, n),
    decreases n,
{
    if n > 0 {
        lemma_candidates_of_files(a, b, n - 1);
        assert(a[n - 1] == b[n - 1]);
    }
}

/// A sweep reads the first forty files, one after the other, each under its own name; further files, and
/// candidates beyond the fiftieth, are left for another time.
pub proof fn sweeps_read_file_by_file(entries: Seq<MarkdownEntry>, entry: MarkdownEntry)
    ensures
        entries.len() >= 40 ==> sweep_candidates(entries.push(entry)) == sweep_candidates(entries),
        entries.len() < 40 && all_candidates(
            entries.push(entry),
            (entries.len() + 1) as int,
        ).len() <= 50
            ==> sweep_candidates(entries.push(entry)) == sweep_candidates(entries) + file_candidates(
            entry.path@,
            lines(entry.content@),
        ),
        sweep_candidates(Seq::<MarkdownEntry>::empty()).len() == 0,
{
    let more = entries.push(entry);
    let n = if entries.len() < 40 {
        entries.len() as int
    } else {
        40int
    };
    lemma_candidates_of_files(entries, more, n);
}

/// What is kept of the candidates: the texts of those that are to be kept, in order.
pub proof fn kept_texts_are_those_to_keep(a: Seq<DreamCandidateView>, c: DreamCandidateView)
    ensures
        c.promote ==> promoted_texts(a.push(c)) == promoted_texts(a).push(c.text),
        !c.promote ==> promoted_texts(a.push(c)) == promoted_texts(a),
        promoted_texts(Seq::<DreamCandidateView>::empty()).len() == 0,
{
    assert(a.push(c).drop_last() =~= a);
}

proof fn lemma_number_is_word(n: nat)
    ensures
        decimal(n).len() > 0,
        forall|i: int| 0 <= i < decimal(n).len() ==> !in_class(CharClass::Space, #[trigger] decimal(n)[i]),
        n <= u32::MAX ==> parsed_u32(decimal(n)) == Some(n as u32),
{
    lemma_decimal_digits(n);
    decimal_reads_back(n);
}

/// A schedule is read as it is written: the minute, the hour, and three stars; a minute or an hour that
/// does not exist is no schedule.
pub proof fn schedules_are_read_as_written(minute: u32, hour: u32)
    ensures
        daily_schedule(
            decimal(minute as nat) + " "@ + decimal(hour as nat) + " * * *"@,
        ) == if minute < 60 && hour < 24 {
            Some((minute, hour))
        } else {
            None
        },
{
    reveal_strlit(" ");
    reveal_strlit("*");
    reveal_strlit(" * * *");
    let class = CharClass::Space;
    let (m, h, star) = (decimal(minute as nat), decimal(hour as nat), "*"@);
    lemma_number_is_word(minute as nat);
    lemma_number_is_word(hour as nat);
    let s0 = m;
    let s1 = s0.push(' ') + h;
    let s2 = s1.push(' ') + star;
    let s3 = s2.push(' ') + star;
    let s4 = s3.push(' ') + star;
    assert(m + " "@ + h + " * * *"@ =~= s4);
    lemma_one_word(m, class);
    lemma_words_add(s0, ' ', h, class);
    lemma_words_add(s1, ' ', star, class);
    lemma_words_add(s2, ' ', star, class);
    lemma_words_add(s3, ' ', star, class);
}

/// A sweep comes once a day, not before its time: before the time of day none is due; from then on one is,
/// unless one ran on that day.
pub proof fn sweeps_come_once_a_day(
    frequency: Seq<char>,
    clock: LocalClock,
    last_day: Option<Result<(i32, u32), String>>,
    r: Result<bool, DreamingError>,
)
    requires
        is_due_answer(frequency, clock, last_day, r),
        clock.due is Some,
    ensures
        ({
            let due = clock.due->Some_0.moment;
            let too_early = clock.now.0 < due.0 || clock.now.0 == due.0 && clock.now.1 < due.1;
            &&& too_early ==> r is Ok && !r->Ok_0
            &&& !too_early && last_day is None ==> r is Ok && r->Ok_0
            &&& !too_early && last_day == Some(Ok::<(i32, u32), String>((clock.year, clock.ordinal)))
                ==> r is Ok && !r->Ok_0
            &&& !too_early && last_day is Some && last_day->Some_0 is Ok && last_day->Some_0->Ok_0 != (
            clock.year, clock.ordinal) ==> r is Ok && r->Ok_0
        }),
{
}

/// A sweep reports what it found and what it keeps; a trial run names no file that it wrote.
pub proof fn sweeps_report_what_they_found(
    r: DreamSweepResult,
    entries: Seq<MarkdownEntry>,
    character: Seq<char>,
    dry_run: bool,
    memory_dir: Seq<char>,
    ran_at: Seq<char>,
    stamp: Seq<char>,
    i: int,
)
    requires
        is_sweep_result(r, entries, character, dry_run, memory_dir, ran_at, stamp),
    ensures
        r.character@ == character,
        r.ran_at@ == ran_at,
        r.dry_run == dry_run,
        r.candidates@.len() == sweep_candidates(entries).len(),
        0 <= i < r.candidates@.len() ==> r.candidates@[i].text@ == sweep_candidates(entries)[i].text
            && r.candidates@[i].source@ == sweep_candidates(entries)[i].source,
        texts(r.promoted@) == promoted_texts(sweep_candidates(entries)),
        dry_run ==> r.staged_path is None && r.dreams_path is None && r.memory_path is None,
        !dry_run ==> r.staged_path is Some && r.dreams_path is Some && r.memory_path is Some,
        !dry_run && memory_dir.len() > 0 ==> ends_with(r.dreams_path->Some_0@, "DREAMS.md"@)
            && ends_with(r.memory_path->Some_0@, "MEMORY.md"@) && contains(
            r.staged_path->Some_0@,
            stamp,
        ),
{
    let c = candidates_view(r.candidates@);
    assert(c.len() == r.candidates@.len());
    if 0 <= i < r.candidates@.len() {
        assert(c[i] == r.candidates@[i]@);
    }
    if !dry_run && memory_dir.len() > 0 {
        reveal_strlit("/");
        reveal_strlit("DREAMS.md");
        reveal_strlit("MEMORY.md");
        reveal_strlit(".dreams/candidates-");
        let name = ".dreams/candidates-"@ + stamp + ".json"@;
        assert(!starts_with("DREAMS.md"@, "/"@)) by {
            assert("DREAMS.md"@.subrange(0, 1)[0] == 'D');
        }
        assert(!starts_with("MEMORY.md"@, "/"@)) by {
            assert("MEMORY.md"@.subrange(0, 1)[0] == 'M');
        }
        assert(!starts_with(name, "/"@)) by {
            assert(name.subrange(0, 1)[0] == '.');
        }
        files_lie_below_their_directory(memory_dir, "DREAMS.md"@);
        files_lie_below_their_directory(memory_dir, "MEMORY.md"@);
        files_lie_below_their_directory(memory_dir, name);
        the_middle_is_contained(".dreams/candidates-"@, stamp, ".json"@);
        let p = path_below(memory_dir, name);
        let at = p.len() - name.len();
        assert(occurs_at(p, name, at));
        lemma_contains_transitive(p, name, stamp);
    }
}

/// A number is read with or without a plus sign; a number that is too large, and a sign alone, are none.
pub proof fn numbers_may_have_a_plus(n: nat)
    ensures
        n <= u32::MAX ==> parsed_u32(decimal(n)) == Some(n as u32),
        n <= u32::MAX ==> parsed_u32(seq!['+'] + decimal(n)) == Some(n as u32),
        n > u32::MAX ==> parsed_u32(decimal(n)) is None,
        parsed_u32(seq!['+']) is None,
        parsed_u32(seq!['-'] + decimal(n)) is None,
{
    lemma_decimal_digits(n);
    decimal_reads_back(n);
    assert((seq!['+'] + decimal(n)).skip(1) =~= decimal(n));
    assert(seq!['+'].skip(1).len() == 0);
    let m = seq!['-'] + decimal(n);
    assert(m[0] == '-');
}

}
