//! What the vector store is asked.
use crate::text::compose::{cat2, cat3, cat5};
use crate::text::number::{decimal, decimal_text};
use crate::text::path::{join_path, path_below};
use crate::text::search::{contains, the_middle_is_contained};
use crate::text::split::{join_texts, joined, texts};
use crate::memory::agent::tool_loop::{signed_decimal, signed_decimal_text};
use vstd::prelude::*;

verus! {

broadcast use vstd::string::group_string_axioms;

/// The table of the vectors.
pub const TABLE_NAME: &'static str = "vectors";

/// The directory of the vector store of a character.
pub fn default_path(data_dir: &str, character: &str) -> (r: String)
    ensures
        r@ == path_below(
            path_below(path_below(data_dir@, character@), "memory"@),
            "vectorstore"@,
        ),
{
    let dir = join_path(data_dir, character);
    let memory = join_path(dir.as_str(), "memory");
    join_path(memory.as_str(), "vectorstore")
}

/// The length of the vector of an entry.
#[derive(Debug)]
pub struct VectorLen {
    /// The entry.
    pub entry_id: String,
    /// How many numbers its vector has.
    pub len: usize,
}

/// A vector fits a store of a dimension.
pub open spec fn fits(v: VectorLen, dimension: i32) -> bool {
    v.len == dimension
}

/// The first vector that does not fit.
pub open spec fn first_misfit(entries: Seq<VectorLen>, dimension: i32) -> Option<VectorLen>
    decreases entries.len(),
{
    if entries.len() == 0 {
        None
    } else if !fits(entries[0], dimension) {
        Some(entries[0])
    } else {
        first_misfit(entries.skip(1), dimension)
    }
}

/// What is reported of a vector that does not fit.
pub open spec fn misfit_text(v: VectorLen, dimension: i32) -> Seq<char> {
    "embedding for '"@ + v.entry_id@ + "' has "@ + decimal(v.len as nat) + " dimensions, expected "@
        + signed_decimal(dimension as i64)
}

/// Whether all vectors fit a store of a dimension; what is reported of the first that does not.
pub fn check_dimensions(entries: &Vec<VectorLen>, dimension: i32) -> (r: Result<(), String>)
    ensures
        match first_misfit(entries@, dimension) {
            None => r is Ok,
            Some(v) => r is Err && r->Err_0@ == misfit_text(v, dimension),
        },
{
    let mut i: usize = 0;
    proof {
        assert(entries@.skip(0) =~= entries@);
    }
    while i < entries.len()
        invariant
            i <= entries.len(),
            first_misfit(entries@.skip(i as int), dimension) == first_misfit(entries@, dimension),
        decreases entries.len() - i,
    {
        proof {
            assert(entries@.skip(i as int).skip(1) =~= entries@.skip(i + 1));
        }
        if dimension < 0 || entries[i].len != dimension as usize {
            let n = decimal_text(entries[i].len as u64);
            let d = signed_decimal_text(dimension as i64);
            let head = cat5(
                "embedding for '",
                entries[i].entry_id.as_str(),
                "' has ",
                n.as_str(),
                " dimensions, expected ",
            );
            return Err(cat2(head.as_str(), d.as_str()));
        }
        i += 1;
    }
    Ok(())
}

/// The condition under which a row is the vector of an entry.
pub fn entry_predicate(entry_id: &str) -> (r: String)
    ensures
        r@ == "entry_id = '"@ + entry_id@ + "'"@,
{
    cat3("entry_id = '", entry_id, "'")
}

/// Identifiers in quotes.
pub open spec fn quoted(ids: Seq<Seq<char>>) -> Seq<Seq<char>> {
    Seq::new(ids.len(), |i: int| "'"@ + ids[i] + "'"@)
}

/// The condition under which a row is the vector of one of the entries; none where there are no entries.
pub fn entries_filter(entry_ids: &Vec<String>) -> (r: Option<String>)
    ensures
        match r {
            None => entry_ids@.len() == 0,
            Some(f) => entry_ids@.len() > 0 && f@ == "entry_id IN ("@ + joined(
                quoted(texts(entry_ids@)),
                ", "@,
            ) + ")"@,
        },
{
    if entry_ids.len() == 0 {
        return None;
    }
    let ghost want = quoted(texts(entry_ids@));
    let mut list: Vec<String> = Vec::new();
    let mut i: usize = 0;
    while i < entry_ids.len()
        invariant
            i <= entry_ids.len(),
            want == quoted(texts(entry_ids@)),
            list.len() == i,
            forall|k: int| 0 <= k < i ==> #[trigger] list@[k]@ == want[k],
        decreases entry_ids.len() - i,
    {
        list.push(cat3("'", entry_ids[i].as_str(), "'"));
        i += 1;
    }
    assert(texts(list@) =~= want);
    Some(cat3("entry_id IN (", join_texts(&list, ", ").as_str(), ")"))
}

/// The address at which texts are embedded.
pub fn embed_url(base_url: &str) -> (r: String)
    ensures
        r@ == base_url@ + "/v1/embed"@,
{
    cat2(base_url, "/v1/embed")
}

/// The vector that is reported is the first that does not fit; none is just when all fit.
pub proof fn the_first_misfit_is_reported(entries: Seq<VectorLen>, dimension: i32)
    ensures
        match first_misfit(entries, dimension) {
            Some(v) => v.len as int != dimension as int && entries.contains(v) && contains(
                misfit_text(v, dimension),
                v.entry_id@,
            ),
            None => forall|i: int|
                0 <= i < entries.len() ==> (#[trigger] entries[i]).len as int == dimension as int,
        },
    decreases entries.len(),
{
    if entries.len() > 0 {
        let rest = entries.skip(1);
        the_first_misfit_is_reported(rest, dimension);
        if !fits(entries[0], dimension) {
            let v = entries[0];
            let tail = "' has "@ + decimal(v.len as nat) + " dimensions, expected "@ + signed_decimal(
                dimension as i64,
            );
            assert(misfit_text(v, dimension) =~= "embedding for '"@ + v.entry_id@ + tail);
            the_middle_is_contained("embedding for '"@, v.entry_id@, tail);
        } else {
            match first_misfit(rest, dimension) {
                Some(v) => {
                    let k = choose|k: int| 0 <= k < rest.len() && rest[k] == v;
                    assert(entries[k + 1] == v);
                },
                None => {
                    assert forall|i: int| 0 <= i < entries.len() implies (#[trigger] entries[i]).len
                        as int == dimension as int by {
                        if i > 0 {
                            assert(rest[i - 1] == entries[i]);
                        }
                    }
                },
            }
        }
    }
}

/// Each identifier stands in its own quotes, in order.
pub proof fn identifiers_are_quoted(ids: Seq<Seq<char>>, i: int)
    requires
        0 <= i < ids.len(),
    ensures
        quoted(ids).len() == ids.len(),
        quoted(ids)[i].len() == ids[i].len() + 2,
        quoted(ids)[i].subrange(1, (ids[i].len() + 1) as int) == ids[i],
        quoted(ids)[i][0] == '\'' && quoted(ids)[i].last() == '\'',
{
    reveal_strlit("'");
    assert(quoted(ids)[i].subrange(1, (ids[i].len() + 1) as int) =~= ids[i]);
}

}
