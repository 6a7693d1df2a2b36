//! Archiving conversations and choosing the image generation model.
use crate::clock::{is_time_text, local_now_text};
use crate::memory::compaction::types::RetentionParams;
use crate::text::compose::{cat2, cat3, clone_option, option_text, same_text};
use crate::text::search::{contains, the_middle_is_contained};
use crate::text::number::{padded_decimal, padded_decimal_text, padded_decimals_differ};
use crate::text::path::{join_path, path_below};
use crate::text::split::{
    join_texts, joined, lemma_joined_push, lemma_lines_append, lemma_texts_push, lines, split_lines, texts,
};
use crate::text::trim::{trim_text, trimmed};
use vstd::prelude::*;

verus! {

broadcast use vstd::string::group_string_axioms;

/// A file of archived messages.
#[derive(Debug)]
pub struct SegmentEntry {
    /// The file's name.
    pub file: String,
    /// How many messages it holds.
    pub message_count: usize,
    /// When it was written.
    pub compacted_at: String,
}

/// The list of all files of archived messages.
#[derive(Debug)]
pub struct CompactionManifest {
    /// The files, oldest first.
    pub segments: Vec<SegmentEntry>,
    /// How many messages they hold together.
    pub total_compacted_messages: usize,
}

/// The name of the segment number `index`.
pub open spec fn segment_name(index: nat) -> Seq<char> {
    padded_decimal(index, 4) + ".jsonl"@
}

/// The lines that are not blank.
pub open spec fn filled_lines(all: Seq<Seq<char>>) -> Seq<Seq<char>> {
    all.filter(|l: Seq<char>| trimmed(l).len() > 0)
}

/// Lines as the text of a file; no line makes an empty file.
pub open spec fn file_of_lines(l: Seq<Seq<char>>) -> Seq<char> {
    if l.len() == 0 {
        Seq::empty()
    } else {
        joined(l, "\n"@) + "\n"@
    }
}

/// How many of `n` messages are archived when the last `keep` stay.
pub open spec fn archived_count(n: nat, keep: nat) -> int {
    if keep >= n {
        0
    } else {
        n - keep
    }
}

/// A conversation file split into what is archived and what stays.
#[derive(Debug)]
pub struct ArchiveSplit {
    /// The messages to archive, one to a line.
    pub archived: Vec<String>,
    /// The messages that stay, one to a line.
    pub retained: Vec<String>,
}

/// `r` is how a conversation file is split when the last `keep` messages stay.
pub open spec fn is_archiving(content: Seq<char>, keep: usize, r: ArchiveSplit) -> bool {
    let all = filled_lines(lines(content));
    let n = archived_count(all.len(), keep as nat);
    &&& texts(r.archived@) == all.take(n)
    &&& texts(r.retained@) == all.skip(n)
    &&& texts(r.archived@) + texts(r.retained@) == all
}

/// The hyphenated form of an identifier: groups of 8, 4, 4, 4 and 12 characters.
pub open spec fn is_hyphenated(s: Seq<char>) -> bool {
    &&& s.len() == 36
    &&& forall|i: int|
        0 <= i < 36 ==> ((#[trigger] s[i] == '-') == (i == 8 || i == 13 || i == 18 || i == 23))
}

/// `uuid::Uuid::new_v4` with `Uuid::to_string`: a random identifier in hyphenated form. Claimed are only
/// its length and its hyphens, which all identifiers share; which identifier it is depends on chance.
#[verifier::external_body]
fn random_id() -> (r: String)
    ensures
        is_hyphenated(r@),
{
    uuid::Uuid::new_v4().to_string()
}

fn nonblank_lines(content: &str) -> (r: Vec<String>)
    ensures
        texts(r@) == filled_lines(lines(content@)),
{
    let all = split_lines(content);
    let ghost a = texts(all@);
    let mut out: Vec<String> = Vec::new();
    let mut i: usize = 0;
    proof {
        reveal(Seq::filter);
        assert(texts(out@) =~= filled_lines(a.take(0)));
    }
    while i < all.len()
        invariant
            i <= all.len(),
            a == texts(all@),
            texts(out@) == filled_lines(a.take(i as int)),
        decreases all.len() - i,
    {
        proof {
            reveal(Seq::filter);
            assert(a.take(i + 1).drop_last() =~= a.take(i as int));
            assert(a.take(i + 1).last() == all@[i as int]@);
        }
        if !trim_text(all[i].as_str()).as_str().is_empty() {
            let t = all[i].clone();
            proof {
                lemma_texts_push(out@, t);
            }
            out.push(t);
        }
        i += 1;
    }
    proof {
        assert(a.take(i as int) =~= a);
    }
    out
}

/// The text of a file with these lines.
pub fn file_text(l: &Vec<String>) -> (r: String)
    ensures
        r@ == file_of_lines(texts(l@)),
{
    proof {
        assert(texts(l@).len() == l@.len());
    }
    if l.len() == 0 {
        String::new()
    } else {
        cat2(join_texts(l, "\n").as_str(), "\n")
    }
}

/// Where a character's conversation is archived.
#[derive(Debug)]
pub struct RealConversationManager {
    /// The character's directory.
    pub character_dir: String,
}

impl RealConversationManager {
    /// A manager for the character's directory.
    pub fn new(character_dir: &str) -> (r: RealConversationManager)
        ensures
            r.character_dir@ == character_dir@,
    {
        RealConversationManager { character_dir: character_dir.to_owned() }
    }

    /// The file of the conversation that goes on.
    pub fn active_path(&self) -> (r: String)
        ensures
            r@ == path_below(self.character_dir@, "active.jsonl"@),
    {
        join_path(self.character_dir.as_str(), "active.jsonl")
    }

    /// The file of the manifest.
    pub fn manifest_path(&self) -> (r: String)
        ensures
            r@ == path_below(self.character_dir@, "compaction.json"@),
    {
        join_path(self.character_dir.as_str(), "compaction.json")
    }

    /// The directory of the segments.
    pub fn segments_dir(&self) -> (r: String)
        ensures
            r@ == path_below(self.character_dir@, "segments"@),
    {
        join_path(self.character_dir.as_str(), "segments")
    }

    /// Splits the conversation file: the last `keep_last_n` messages stay, or all where there are
    /// fewer; those before them are archived. Blank lines are dropped.
    pub fn archive_and_retain(&self, params: &RetentionParams) -> (r: ArchiveSplit)
        ensures
            is_archiving(params.active_content@, params.keep_last_n, r),
    {
        let mut archived = nonblank_lines(params.active_content.as_str());
        let ghost all = texts(archived@);
        let keep: usize = if params.keep_last_n < archived.len() {
            params.keep_last_n
        } else {
            archived.len()
        };
        let split_at: usize = archived.len() - keep;
        let ghost before = archived@;
        let retained = archived.split_off(split_at);
        proof {
            assert(texts(archived@) =~= all.take(split_at as int));
            assert(texts(retained@) =~= all.skip(split_at as int));
            assert(texts(archived@) + texts(retained@) =~= all);
        }
        ArchiveSplit { archived, retained }
    }

    /// The identifier of the conversation that goes on.
    pub fn new_conversation_id(&self) -> (r: String)
        ensures
            is_hyphenated(r@),
    {
        random_id()
    }
}

/// How many messages the segments hold together.
pub open spec fn message_total(segments: Seq<SegmentEntry>) -> nat
    decreases segments.len(),
{
    if segments.len() == 0 {
        0
    } else {
        message_total(segments.drop_last()) + segments.last().message_count as nat
    }
}

impl CompactionManifest {
    /// The segments carry the names of their numbers, and the total counts the messages of all of them.
    pub open spec fn wf(&self) -> bool {
        &&& self.total_compacted_messages == message_total(self.segments@)
        &&& forall|i: int|
            0 <= i < self.segments@.len() ==> (#[trigger] self.segments@[i]).file@ == segment_name(
                (i + 1) as nat,
            )
    }

    /// Nothing has been archived yet.
    pub fn empty() -> (r: CompactionManifest)
        ensures
            r.wf(),
            r.segments@.len() == 0,
            r.total_compacted_messages == 0,
    {
        CompactionManifest { segments: Vec::new(), total_compacted_messages: 0 }
    }

    /// Enters a new segment with `count` messages, written at a given time.
    pub fn add_segment_at(&mut self, count: usize, compacted_at: String) -> (r: String)
        requires
            old(self).segments@.len() < usize::MAX,
            old(self).total_compacted_messages + count <= usize::MAX,
        ensures
            old(self).wf() ==> final(self).wf(),
            r@ == segment_name((old(self).segments@.len() + 1) as nat),
            final(self).total_compacted_messages == old(self).total_compacted_messages + count,
            final(self).segments@.len() == old(self).segments@.len() + 1,
            final(self).segments@.drop_last() == old(self).segments@,
            final(self).segments@.last().file@ == r@,
            final(self).segments@.last().message_count == count,
            final(self).segments@.last().compacted_at == compacted_at,
    {
        let index: usize = self.segments.len() + 1;
        let number = padded_decimal_text(index as u64, 4);
        let file = cat2(number.as_str(), ".jsonl");
        self.segments.push(
            SegmentEntry { file: file.clone(), message_count: count, compacted_at },
        );
        self.total_compacted_messages = self.total_compacted_messages + count;
        proof {
            assert(self.segments@.drop_last() =~= old(self).segments@);
            assert forall|i: int| old(self).wf() && 0 <= i < self.segments@.len() implies (
            #[trigger] self.segments@[i]).file@ == segment_name((i + 1) as nat) by {
                if i < old(self).segments@.len() {
                    assert(self.segments@[i] == old(self).segments@[i]);
                }
            }
        }
        file
    }

    /// Enters a new segment with `count` messages, written now, and names its file.
    pub fn add_segment(&mut self, count: usize) -> (r: String)
        requires
            old(self).segments@.len() < usize::MAX,
            old(self).total_compacted_messages + count <= usize::MAX,
        ensures
            old(self).wf() ==> final(self).wf(),
            r@ == segment_name((old(self).segments@.len() + 1) as nat),
            final(self).total_compacted_messages == old(self).total_compacted_messages + count,
            final(self).segments@.len() == old(self).segments@.len() + 1,
            final(self).segments@.drop_last() == old(self).segments@,
            final(self).segments@.last().file@ == r@,
            final(self).segments@.last().message_count == count,
            is_time_text(final(self).segments@.last().compacted_at@),
    {
        self.add_segment_at(count, local_now_text())
    }
}

/// One line more at the end of a file.
proof fn lemma_file_of_push(l: Seq<Seq<char>>, x: Seq<char>)
    ensures
        file_of_lines(l.push(x)) == file_of_lines(l) + x + "\n"@,
{
    lemma_joined_push(l, x, "\n"@);
    assert(file_of_lines(l.push(x)) =~= file_of_lines(l) + x + "\n"@);
}

/// Archiving loses nothing: the archived messages followed by those that stay are the whole
/// conversation.
pub proof fn archiving_loses_nothing(archived: Seq<Seq<char>>, retained: Seq<Seq<char>>)
    ensures
        file_of_lines(archived) + file_of_lines(retained) == file_of_lines(archived + retained),
    decreases retained.len(),
{
    if retained.len() == 0 {
        assert(archived + retained =~= archived);
        assert(file_of_lines(archived) + file_of_lines(retained) =~= file_of_lines(archived));
    } else {
        let t = retained.drop_last();
        let x = retained.last();
        archiving_loses_nothing(archived, t);
        assert(t.push(x) =~= retained);
        assert((archived + t).push(x) =~= archived + retained);
        lemma_file_of_push(t, x);
        lemma_file_of_push(archived + t, x);
        assert(file_of_lines(archived) + file_of_lines(retained) =~= (file_of_lines(archived)
            + file_of_lines(t)) + x + "\n"@);
    }
}

/// A written file is read back: its messages are those it was made of, where none is blank, holds a line
/// feed or ends with a carriage return.
pub proof fn written_messages_are_read_back(l: Seq<Seq<char>>)
    requires
        forall|i: int|
            0 <= i < l.len() ==> trimmed(#[trigger] l[i]).len() > 0 && !l[i].contains('\n')
                && l[i].last() != '\r',
    ensures
        lines(file_of_lines(l)) == l,
        filled_lines(lines(file_of_lines(l))) == l,
    decreases l.len(),
{
    reveal(Seq::filter);
    reveal_strlit("\n");
    if l.len() == 0 {
        assert(lines(file_of_lines(l)) =~= l);
    } else {
        let t = l.drop_last();
        let x = l.last();
        assert forall|i: int| 0 <= i < t.len() implies trimmed(#[trigger] t[i]).len() > 0
            && !t[i].contains('\n') && t[i].last() != '\r' by {
            assert(t[i] == l[i]);
        }
        written_messages_are_read_back(t);
        assert(t.push(x) =~= l);
        assert(x == l[l.len() - 1]);
        lemma_file_of_push(t, x);
        let before = file_of_lines(t);
        assert(before.len() == 0 || before.last() == '\n');
        assert(x.len() > 0) by {
            if x.len() == 0 {
                assert(trimmed(x).len() == 0);
            }
        }
        assert forall|i: int| 0 <= i < x.len() implies #[trigger] x[i] != '\n' by {
            assert(x.contains(x[i]));
        }
        lemma_lines_append(before, x);
        assert(before + x + "\n"@ =~= before + x.push('\n'));
        assert(lines(file_of_lines(l)) == l);
        assert(filled_lines(l) == filled_lines(t).push(x));
    }
}

/// No two segments share a file: names of different numbers differ.
pub proof fn segment_names_differ(a: nat, b: nat)
    requires
        segment_name(a) == segment_name(b),
    ensures
        a == b,
{
    let x = padded_decimal(a, 4);
    let y = padded_decimal(b, 4);
    reveal_strlit(".jsonl");
    assert(segment_name(a).len() == x.len() + 6);
    assert(segment_name(b).len() == y.len() + 6);
    assert(x =~= segment_name(a).take(x.len() as int));
    assert(y =~= segment_name(b).take(y.len() as int));
    padded_decimals_differ(a, b, 4);
}

/// An image generation model of the catalog, as far as its entry is written in strings.
#[derive(Debug)]
pub struct ImageGenEntry {
    /// The name of the profile.
    pub name: String,
    /// The model.
    pub model_id: Option<String>,
    /// The provider.
    pub provider: Option<String>,
    /// The environment variable that holds the key.
    pub api_key_env: Option<String>,
    /// The address of the service.
    pub base_url: Option<String>,
    /// The size of the pictures.
    pub size: Option<String>,
    /// The quality of the pictures.
    pub quality: Option<String>,
    /// The shape of the pictures.
    pub aspect_ratio: Option<String>,
    /// The resolution of the pictures.
    pub image_size: Option<String>,
}

/// How images are generated.
#[derive(Debug)]
pub struct ImageGenConfig {
    /// The provider.
    pub provider: String,
    /// The model.
    pub model_id: String,
    /// The key.
    pub api_key: String,
    /// The address of the service.
    pub base_url: Option<String>,
    /// The size of the pictures.
    pub size: String,
    /// The quality of the pictures.
    pub quality: Option<String>,
    /// The shape of the pictures.
    pub aspect_ratio: Option<String>,
    /// The resolution of the pictures.
    pub image_size: Option<String>,
}

/// The position of the profile called `name`.
pub open spec fn profile_position(catalog: Seq<ImageGenEntry>, name: Seq<char>) -> Option<int>
    decreases catalog.len(),
{
    if catalog.len() == 0 {
        None
    } else if profile_position(catalog.drop_last(), name) is Some {
        profile_position(catalog.drop_last(), name)
    } else if catalog.last().name@ == name {
        Some(catalog.len() - 1)
    } else {
        None
    }
}

/// The name of the profile to use: the default where there is one, otherwise the first of the catalog.
pub open spec fn profile_name(default_name: Option<&str>, catalog: Seq<ImageGenEntry>) -> Option<
    Seq<char>,
> {
    match default_name {
        Some(n) => Some(n@),
        None => if catalog.len() > 0 {
            Some(catalog[0].name@)
        } else {
            None
        },
    }
}

/// The provider of an entry.
pub open spec fn provider_of(entry: ImageGenEntry) -> Seq<char> {
    match entry.provider {
        Some(p) => p@,
        None => "openai"@,
    }
}

/// The environment variable that holds the key for an entry.
pub open spec fn key_variable(entry: ImageGenEntry) -> Seq<char> {
    match entry.api_key_env {
        Some(k) => k@,
        None => if provider_of(entry) == "openrouter"@ {
            "OPENROUTER_API_KEY"@
        } else {
            "OPENAI_API_KEY"@
        },
    }
}

/// What is wrong with the catalog for the profile to use.
pub open spec fn selection_error(default_name: Option<&str>, catalog: Seq<ImageGenEntry>) -> Option<
    Seq<char>,
> {
    match profile_name(default_name, catalog) {
        None => Some("no image generation model configured"@),
        Some(name) => match profile_position(catalog, name) {
            None => Some(
                "image generation profile '"@ + name + "' not found in model catalog"@,
            ),
            Some(i) => if catalog[i].model_id is None {
                Some("image generation profile '"@ + name + "' is missing model_id"@)
            } else {
                None
            },
        },
    }
}

fn find_profile(catalog: &Vec<ImageGenEntry>, name: &str) -> (r: Option<usize>)
    ensures
        match r {
            Some(i) => i < catalog@.len() && profile_position(catalog@, name@) == Some(i as int),
            None => profile_position(catalog@, name@) is None,
        },
{
    let mut i: usize = 0;
    proof {
        assert(catalog@.take(0) =~= Seq::<ImageGenEntry>::empty());
    }
    while i < catalog.len()
        invariant
            i <= catalog.len(),
            profile_position(catalog@.take(i as int), name@) is None,
        decreases catalog.len() - i,
    {
        proof {
            assert(catalog@.take(i + 1).drop_last() =~= catalog@.take(i as int));
        }
        if same_text(catalog[i].name.as_str(), name) {
            proof {
                lemma_position_stays(catalog@, name@, i + 1);
            }
            return Some(i);
        }
        i += 1;
    }
    proof {
        assert(catalog@.take(i as int) =~= catalog@);
    }
    None
}

proof fn lemma_position_stays(catalog: Seq<ImageGenEntry>, name: Seq<char>, n: int)
    requires
        0 <= n <= catalog.len(),
        profile_position(catalog.take(n), name) is Some,
    ensures
        profile_position(catalog, name) == profile_position(catalog.take(n), name),
    decreases catalog.len() - n,
{
    if n < catalog.len() {
        assert(catalog.take(n + 1).drop_last() =~= catalog.take(n));
        lemma_position_stays(catalog, name, n + 1);
    } else {
        assert(catalog.take(n) =~= catalog);
    }
}

fn select_image_gen_profile(default_name: Option<&str>, catalog: &Vec<ImageGenEntry>) -> (r:
    Result<usize, String>)
    ensures
        match r {
            Ok(i) => {
                &&& selection_error(default_name, catalog@) is None
                &&& i < catalog@.len()
                &&& profile_position(catalog@, profile_name(default_name, catalog@)->Some_0)
                    == Some(i as int)
            },
            Err(e) => selection_error(default_name, catalog@) == Some(e@),
        },
{
    let name = match default_name {
        Some(n) => n.to_owned(),
        None => if catalog.len() > 0 {
            catalog[0].name.clone()
        } else {
            return Err("no image generation model configured".to_owned());
        },
    };
    match find_profile(catalog, name.as_str()) {
        None => Err(
            cat3("image generation profile '", name.as_str(), "' not found in model catalog"),
        ),
        Some(i) => if catalog[i].model_id.is_none() {
            Err(cat3("image generation profile '", name.as_str(), "' is missing model_id"))
        } else {
            Ok(i)
        },
    }
}

impl ImageGenEntry {
    fn key_variable(&self) -> (r: String)
        ensures
            r@ == key_variable(*self),
    {
        match &self.api_key_env {
            Some(k) => k.clone(),
            None => {
                let provider = match &self.provider {
                    Some(p) => p.clone(),
                    None => "openai".to_owned(),
                };
                if same_text(provider.as_str(), "openrouter") {
                    "OPENROUTER_API_KEY".to_owned()
                } else {
                    "OPENAI_API_KEY".to_owned()
                }
            },
        }
    }

    fn resolve(&self, api_key: Option<String>) -> (r: Result<ImageGenConfig, String>)
        requires
            self.model_id is Some,
        ensures
            match api_key {
                Some(key) => r is Ok && configures(r->Ok_0, *self, key@),
                None => r is Err && r->Err_0@ == "image generation API key env var '"@
                    + key_variable(*self) + "' is not set"@,
            },
    {
        let key = match api_key {
            Some(k) => k,
            None => {
                return Err(
                    cat3(
                        "image generation API key env var '",
                        self.key_variable().as_str(),
                        "' is not set",
                    ),
                );
            },
        };
        let provider = match &self.provider {
            Some(p) => p.clone(),
            None => "openai".to_owned(),
        };
        let model_id = match &self.model_id {
            Some(m) => m.clone(),
            None => String::new(),
        };
        let size = match &self.size {
            Some(s) => s.clone(),
            None => "1024x1024".to_owned(),
        };
        Ok(
            ImageGenConfig {
                provider,
                model_id,
                api_key: key,
                base_url: clone_option(&self.base_url),
                size,
                quality: clone_option(&self.quality),
                aspect_ratio: clone_option(&self.aspect_ratio),
                image_size: clone_option(&self.image_size),
            },
        )
    }
}

/// The value of the variable `name` in an environment of names and values.
pub open spec fn variable(environment: Seq<(String, String)>, name: Seq<char>) -> Option<Seq<char>>
    decreases environment.len(),
{
    if environment.len() == 0 {
        None
    } else if environment[0].0@ == name {
        Some(environment[0].1@)
    } else {
        variable(environment.skip(1), name)
    }
}

fn find_variable(environment: &Vec<(String, String)>, name: &str) -> (r: Option<String>)
    ensures
        option_text(r) == variable(environment@, name@),
{
    let mut i: usize = 0;
    proof {
        assert(environment@.skip(0) =~= environment@);
    }
    while i < environment.len()
        invariant
            i <= environment.len(),
            variable(environment@.skip(i as int), name@) == variable(environment@, name@),
        decreases environment.len() - i,
    {
        proof {
            assert(environment@.skip(i as int).skip(1) =~= environment@.skip(i + 1));
        }
        if same_text(environment[i].0.as_str(), name) {
            return Some(environment[i].1.clone());
        }
        i += 1;
    }
    None
}

/// `c` is the configuration of the entry with a key.
pub open spec fn configures(c: ImageGenConfig, entry: ImageGenEntry, key: Seq<char>) -> bool {
    &&& c.api_key@ == key
    &&& c.provider@ == provider_of(entry)
    &&& option_text(entry.model_id) == Some(c.model_id@)
    &&& option_text(c.base_url) == option_text(entry.base_url)
    &&& c.size@ == match entry.size {
        Some(s) => s@,
        None => "1024x1024"@,
    }
    &&& option_text(c.quality) == option_text(entry.quality)
    &&& option_text(c.aspect_ratio) == option_text(entry.aspect_ratio)
    &&& option_text(c.image_size) == option_text(entry.image_size)
}

/// Resolves the image generation model from the catalog, which is sorted by name, and the environment,
/// which holds the key.
pub fn resolve_image_gen_config(
    default_name: Option<&str>,
    catalog: &Vec<ImageGenEntry>,
    environment: &Vec<(String, String)>,
) -> (r: Result<ImageGenConfig, String>)
    ensures
        match selection_error(default_name, catalog@) {
            Some(e) => r is Err && r->Err_0@ == e,
            None => {
                let entry = catalog@[profile_position(
                    catalog@,
                    profile_name(default_name, catalog@)->Some_0,
                )->Some_0];
                match variable(environment@, key_variable(entry)) {
                    Some(key) => r is Ok && configures(r->Ok_0, entry, key),
                    None => r is Err && r->Err_0@ == "image generation API key env var '"@
                        + key_variable(entry) + "' is not set"@,
                }
            },
        },
{
    match select_image_gen_profile(default_name, catalog) {
        Err(e) => Err(e),
        Ok(i) => {
            let key = find_variable(environment, catalog[i].key_variable().as_str());
            catalog[i].resolve(key)
        },
    }
}

/// As many messages stay as are to be kept, or all where there are fewer; the rest is archived.
pub proof fn the_messages_to_keep_stay(n: nat, keep: nat)
    ensures
        0 <= archived_count(n, keep) <= n,
        keep <= n ==> n - archived_count(n, keep) == keep,
        keep > n ==> archived_count(n, keep) == 0,
{
}

/// Blank lines are no messages, and all others are, in order.
pub proof fn filled_lines_are_messages(a: Seq<Seq<char>>, line: Seq<char>)
    ensures
        trimmed(line).len() == 0 ==> filled_lines(a.push(line)) == filled_lines(a),
        trimmed(line).len() > 0 ==> filled_lines(a.push(line)) == filled_lines(a).push(line),
        filled_lines(Seq::<Seq<char>>::empty()).len() == 0,
{
    reveal(Seq::filter);
    assert(a.push(line).drop_last() =~= a);
}

/// The messages of all segments are added up.
pub proof fn segments_are_added_up(segments: Seq<SegmentEntry>, segment: SegmentEntry)
    ensures
        message_total(segments.push(segment)) == message_total(segments) + segment.message_count,
        message_total(Seq::<SegmentEntry>::empty()) == 0,
{
    assert(segments.push(segment).drop_last() =~= segments);
}

/// The profile that is used is the first of its name.
pub proof fn profiles_are_found_by_name(catalog: Seq<ImageGenEntry>, name: Seq<char>)
    ensures
        match profile_position(catalog, name) {
            Some(i) => 0 <= i < catalog.len() && catalog[i].name@ == name && forall|k: int|
                0 <= k < i ==> (#[trigger] catalog[k]).name@ != name,
            None => forall|k: int| 0 <= k < catalog.len() ==> (#[trigger] catalog[k]).name@ != name,
        },
    decreases catalog.len(),
{
    if catalog.len() > 0 {
        let t = catalog.drop_last();
        profiles_are_found_by_name(t, name);
        match profile_position(t, name) {
            Some(i) => {
                assert forall|k: int| 0 <= k < i implies (#[trigger] catalog[k]).name@ != name by {
                    assert(t[k].name@ != name);
                }
            },
            None => {
                assert forall|k: int| 0 <= k < t.len() implies (#[trigger] catalog[k]).name@ != name by {
                    assert(t[k].name@ != name);
                }
            },
        }
    }
}

/// The key comes from the variable that the entry names; where it names none, from that of its provider.
pub proof fn keys_come_from_their_variables(entry: ImageGenEntry)
    ensures
        entry.api_key_env is Some ==> key_variable(entry) == entry.api_key_env->Some_0@,
        entry.api_key_env is None && entry.provider is Some && entry.provider->Some_0@ == "openrouter"@
            ==> key_variable(entry) == "OPENROUTER_API_KEY"@,
        entry.api_key_env is None && (entry.provider is None || entry.provider->Some_0@ != "openrouter"@)
            ==> key_variable(entry) == "OPENAI_API_KEY"@,
        entry.provider is Some ==> provider_of(entry) == entry.provider->Some_0@,
        entry.provider is None ==> provider_of(entry) == "openai"@,
{
    reveal_strlit("openai");
    reveal_strlit("openrouter");
    assert("openai"@.len() != "openrouter"@.len());
}

/// The value of a variable is the one that the environment holds under its name.
pub proof fn variables_are_found_by_name(environment: Seq<(String, String)>, name: Seq<char>, i: int)
    requires
        0 <= i <= environment.len(),
        forall|k: int| 0 <= k < i ==> (#[trigger] environment[k]).0@ != name,
        i < environment.len() ==> environment[i].0@ == name,
    ensures
        i < environment.len() ==> variable(environment, name) == Some(environment[i].1@),
        i == environment.len() ==> variable(environment, name) is None,
    decreases i,
{
    if i > 0 {
        let rest = environment.skip(1);
        assert(environment[0].0@ != name);
        assert forall|k: int| 0 <= k < i - 1 implies (#[trigger] rest[k]).0@ != name by {
            assert(rest[k] == environment[k + 1]);
        }
        variables_are_found_by_name(rest, name, i - 1);
    }
}

/// The profile to use is the default where one is named, and the first of the catalog where none is.
pub proof fn the_default_profile_is_used(default_name: &str, catalog: Seq<ImageGenEntry>)
    ensures
        profile_name(Some(default_name), catalog) == Some(default_name@),
        catalog.len() > 0 ==> profile_name(None, catalog) == Some(catalog[0].name@),
        catalog.len() == 0 ==> profile_name(None, catalog) is None,
{
}

/// Of the messages of a conversation file the last ones stay, as many as are to be kept, and those before
/// them are archived; none is lost, and their order stays.
pub proof fn the_last_messages_stay(content: Seq<char>, keep: usize, r: ArchiveSplit, i: int)
    requires
        is_archiving(content, keep, r),
    ensures
        ({
            let all = filled_lines(lines(content));
            let kept = r.retained@.len() as int;
            &&& r.archived@.len() + r.retained@.len() == all.len()
            &&& kept == keep || kept == all.len() && kept < keep
            &&& 0 <= i < r.archived@.len() ==> r.archived@[i]@ == all[i]
            &&& 0 <= i < kept ==> r.retained@[i]@ == all[all.len() - kept + i]
        }),
{
    let all = filled_lines(lines(content));
    let (a, b) = (texts(r.archived@), texts(r.retained@));
    assert(a.len() == r.archived@.len() && b.len() == r.retained@.len());
    if 0 <= i < a.len() {
        assert(a[i] == r.archived@[i]@);
    }
    if 0 <= i < b.len() {
        assert(b[i] == r.retained@[i]@);
    }
}

/// A profile can be used where it is in the catalog and names a model; otherwise the error says which
/// profile is meant.
pub proof fn only_complete_profiles_are_used(default_name: Option<&str>, catalog: Seq<ImageGenEntry>)
    ensures
        (selection_error(default_name, catalog) is None) <==> match profile_name(default_name, catalog) {
            Some(name) => match profile_position(catalog, name) {
                Some(i) => catalog[i].model_id is Some,
                None => false,
            },
            None => false,
        },
        profile_name(default_name, catalog) is Some && selection_error(default_name, catalog) is Some
            ==> contains(
            selection_error(default_name, catalog)->Some_0,
            profile_name(default_name, catalog)->Some_0,
        ),
{
    if profile_name(default_name, catalog) is Some {
        let name = profile_name(default_name, catalog)->Some_0;
        the_middle_is_contained(
            "image generation profile '"@,
            name,
            "' not found in model catalog"@,
        );
        the_middle_is_contained("image generation profile '"@, name, "' is missing model_id"@);
    }
}

/// A configuration holds what its profile says; only a size that is missing is filled in.
pub proof fn configurations_hold_what_the_profile_says(
    c: ImageGenConfig,
    entry: ImageGenEntry,
    key: Seq<char>,
)
    requires
        configures(c, entry, key),
    ensures
        c.api_key@ == key,
        entry.model_id is Some && c.model_id@ == entry.model_id->Some_0@,
        entry.provider is Some ==> c.provider@ == entry.provider->Some_0@,
        entry.provider is None ==> c.provider@ == "openai"@,
        entry.size is Some ==> c.size@ == entry.size->Some_0@,
        entry.size is None ==> c.size@ == "1024x1024"@,
        option_text(c.base_url) == option_text(entry.base_url),
        option_text(c.quality) == option_text(entry.quality),
        option_text(c.aspect_ratio) == option_text(entry.aspect_ratio),
        option_text(c.image_size) == option_text(entry.image_size),
{
}

}
