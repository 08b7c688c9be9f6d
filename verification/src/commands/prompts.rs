//! The prompts of the user: extraction, search, frequency and statistics.
use vstd::prelude::*;
use vstd::string::*;

use crate::commands::diff::PromptAuthorship;
use crate::commands::helpers;
use crate::commands::helpers::{flag_views, given_flags, has_short_id, id_head, text_view};
use crate::error::{invalid, invalid_argument, ErrorView, SnatchError};
use crate::json;
use crate::json::{fields_view, given_size, given_text, number_json, texts_json, Json, JsonView};
use crate::names;
use crate::names::{name_set, with_name};
use crate::order;
use crate::order::{all_placed, first_of_list, placed, sorted_by, time_before};
use crate::patterns;
use crate::patterns::{build_error, matches_text};
use crate::provider::{skips_json, skips_view, SkippedProvider};
use crate::text;
use crate::text::{begins, decimal, has, lowercase, padded_left, precedes, replaced, trimmed, views};
use crate::time;
use crate::time::shown;

verus! {

// ---------------------------------------------------------------------------
// Prompts
// ---------------------------------------------------------------------------

/// A prompt and where it came from.
#[derive(Debug, Clone, PartialEq, Eq)]
pub struct Prompt {
    /// Its text.
    pub text: String,
    /// When it was sent, as it is shown.
    pub timestamp: Option<String>,
    /// Its session.
    pub session_id: Option<String>,
    /// The path of its project.
    pub project_path: Option<String>,
    /// The provider of its session.
    pub provider: Option<String>,
    /// The qualified id of its session.
    pub qualified_id: Option<String>,
    /// The identity of its project.
    pub project_key: Option<String>,
    /// When it was sent.
    pub sort_timestamp: i128,
    /// What decides between prompts that were sent at once.
    pub sort_tiebreak: String,
    /// Whether it is a message of the system in the guise of a prompt.
    pub is_noise: bool,
}

impl Prompt {
    /// A copy of the prompt.
    pub fn copy(&self) -> (r: Prompt)
        ensures
            r == *self,
    {
        Prompt {
            text: self.text.clone(),
            timestamp: crate::provider::copy_text(&self.timestamp),
            session_id: crate::provider::copy_text(&self.session_id),
            project_path: crate::provider::copy_text(&self.project_path),
            provider: crate::provider::copy_text(&self.provider),
            qualified_id: crate::provider::copy_text(&self.qualified_id),
            project_key: crate::provider::copy_text(&self.project_key),
            sort_timestamp: self.sort_timestamp,
            sort_tiebreak: self.sort_tiebreak.clone(),
            is_noise: self.is_noise,
        }
    }
}

/// The texts of a list of prompts.
pub open spec fn texts(prompts: Seq<Prompt>) -> Seq<Seq<char>> {
    Seq::new(prompts.len(), |i: int| prompts[i].text@)
}

/// How often a text is in a list.
pub open spec fn count_of(list: Seq<Seq<char>>, t: Seq<char>) -> int
    decreases list.len(),
{
    if list.len() == 0 {
        0
    } else {
        count_of(list.drop_last(), t) + (if list.last() == t {
            1int
        } else {
            0int
        })
    }
}

/// A text is counted where it is in the list.
pub proof fn lemma_count_of(list: Seq<Seq<char>>, t: Seq<char>)
    ensures
        0 <= count_of(list, t) <= list.len(),
        count_of(list, t) > 0 <==> list.contains(t),
    decreases list.len(),
{
    if list.len() > 0 {
        let front = list.drop_last();
        lemma_count_of(front, t);
        assert(list =~= front.push(list.last()));
        if front.contains(t) {
            let k = choose|k: int| 0 <= k < front.len() && front[k] == t;
            assert(list[k] == t);
        }
        if list.contains(t) {
            let k = choose|k: int| 0 <= k < list.len() && list[k] == t;
            if k < front.len() {
                assert(front[k] == t);
            }
        }
        if list.last() == t {
            assert(list[list.len() - 1] == t);
        }
    }
}

// ---------------------------------------------------------------------------
// Frequency
// ---------------------------------------------------------------------------

/// How often a prompt was used.
#[derive(Debug, Clone, PartialEq, Eq)]
pub struct FrequencyEntry {
    /// The text of the prompt.
    pub prompt: String,
    /// The number of times.
    pub count: usize,
}

/// The contents of an entry.
#[verifier::ext_equal]
pub struct FrequencyView {
    /// The text of the prompt.
    pub prompt: Seq<char>,
    /// The number of times.
    pub count: int,
}

impl View for FrequencyEntry {
    type V = FrequencyView;

    open spec fn view(&self) -> FrequencyView {
        FrequencyView { prompt: self.prompt@, count: self.count as int }
    }
}

/// The contents of a list of entries.
pub open spec fn entry_views(entries: Seq<FrequencyEntry>) -> Seq<FrequencyView> {
    entries.map_values(|e: FrequencyEntry| e@)
}

/// Each text once, in order, with how often it was used.
pub open spec fn tallies(list: Seq<Seq<char>>) -> Seq<FrequencyView> {
    let set = name_set(list);
    Seq::new(set.len(), |i: int| FrequencyView { prompt: set[i], count: count_of(list, set[i]) })
}

/// Used at least so often.
pub open spec fn used_at_least(min_count: Option<usize>) -> spec_fn(FrequencyView) -> bool {
    |e: FrequencyView|
        match min_count {
            Some(min) => e.count >= min,
            None => true,
        }
}

/// Used more often; of two used equally often the one whose text comes first.
pub open spec fn more_used() -> spec_fn(FrequencyView, FrequencyView) -> bool {
    |a: FrequencyView, b: FrequencyView|
        a.count > b.count || (a.count == b.count && precedes(a.prompt, b.prompt))
}

/// Longer; of two equally long the one whose text comes first.
pub open spec fn longer() -> spec_fn(FrequencyView, FrequencyView) -> bool {
    |a: FrequencyView, b: FrequencyView|
        a.prompt.len() > b.prompt.len() || (a.prompt.len() == b.prompt.len() && precedes(
            a.prompt,
            b.prompt,
        ))
}

/// The frequency of prompts: each text once with how often it was used, without those that
/// were used too seldom, the most used or the longest first.
pub open spec fn frequency_of(
    list: Seq<Seq<char>>,
    min_count: Option<usize>,
    sort_by_length: bool,
) -> Seq<FrequencyView> {
    sorted_by(
        tallies(list).filter(used_at_least(min_count)),
        if sort_by_length {
            longer()
        } else {
            more_used()
        },
    )
}

spec fn on_entries(lt: spec_fn(FrequencyView, FrequencyView) -> bool) -> spec_fn(
    FrequencyEntry,
    FrequencyEntry,
) -> bool {
    |a: FrequencyEntry, b: FrequencyEntry| lt(a@, b@)
}

fn is_more_used(a: &FrequencyEntry, b: &FrequencyEntry) -> (o: bool)
    ensures
        o == on_entries(more_used())(*a, *b),
{
    a.count > b.count || (a.count == b.count && text::before(a.prompt.as_str(), b.prompt.as_str()))
}

fn is_longer(a: &FrequencyEntry, b: &FrequencyEntry) -> (o: bool)
    ensures
        o == on_entries(longer())(*a, *b),
{
    let x: usize = a.prompt.as_str().unicode_len();
    let y: usize = b.prompt.as_str().unicode_len();
    x > y || (x == y && text::before(a.prompt.as_str(), b.prompt.as_str()))
}

/// The place of a text among sorted entries, from behind: how many entries come at or before
/// it.
fn find_slot(entries: &Vec<FrequencyEntry>, t: &str) -> (r: usize)
    ensures
        r <= entries@.len(),
        forall|k: int| r <= k < entries@.len() ==> precedes(t@, (#[trigger] entries@[k]).prompt@)
            && entries@[k].prompt@ != t@,
        r > 0 ==> entries@[r - 1].prompt@ == t@ || !precedes(t@, entries@[r - 1].prompt@),
{
    let mut i: usize = entries.len();
    while i > 0 && text::before(t, entries[i - 1].prompt.as_str()) && !text::same(
        t,
        entries[i - 1].prompt.as_str(),
    )
        invariant
            i <= entries@.len(),
            forall|k: int|
                i <= k < entries@.len() ==> precedes(t@, (#[trigger] entries@[k]).prompt@)
                    && entries@[k].prompt@ != t@,
        decreases i,
    {
        i = i - 1;
    }
    i
}

/// The texts of a list of entries.
spec fn entry_names(entries: Seq<FrequencyEntry>) -> Seq<Seq<char>> {
    Seq::new(entries.len(), |i: int| entries[i].prompt@)
}

proof fn lemma_slot_inserts(done: Seq<Seq<char>>, t: Seq<char>, r: int)
    requires
        0 <= r <= done.len(),
        forall|k: int| r <= k < done.len() ==> precedes(t, #[trigger] done[k]) && done[k] != t,
        r > 0 ==> done[r - 1] == t || !precedes(t, done[r - 1]),
    ensures
        with_name(done, t) == (if r > 0 && done[r - 1] == t {
            done
        } else {
            done.insert(r, t)
        }),
    decreases done.len(),
{
    if done.len() == 0 {
        assert(done.insert(r, t) =~= seq![t]);
    } else if r == done.len() {
        if done[r - 1] != t {
            assert(done.insert(r, t) =~= done.push(t));
        }
    } else {
        let front = done.drop_last();
        assert(precedes(t, done[done.len() - 1]));
        assert forall|k: int| r <= k < front.len() implies precedes(t, #[trigger] front[k])
            && front[k] != t by {
            assert(front[k] == done[k]);
        }
        lemma_slot_inserts(front, t, r);
        if r > 0 && done[r - 1] == t {
            assert(front.push(done.last()) =~= done);
        } else {
            assert(front.insert(r, t).push(done.last()) =~= done.insert(r, t));
        }
    }
}

fn tally(prompts: &Vec<Prompt>) -> (r: Vec<FrequencyEntry>)
    ensures
        entry_views(r@) == tallies(texts(prompts@)),
{
    let ghost all = texts(prompts@);
    let mut entries: Vec<FrequencyEntry> = Vec::new();
    let mut i: usize = 0;
    proof {
        assert(all.take(0) =~= Seq::empty());
        assert(entry_names(entries@) =~= Seq::empty());
    }
    while i < prompts.len()
        invariant
            i <= prompts@.len(),
            all == texts(prompts@),
            entry_names(entries@) == name_set(all.take(i as int)),
            forall|k: int|
                0 <= k < entries@.len() ==> (#[trigger] entries@[k]).count == count_of(
                    all.take(i as int),
                    entries@[k].prompt@,
                ),
        decreases prompts@.len() - i,
    {
        let ghost part = all.take(i as int);
        let ghost next = all.take(i + 1);
        let ghost before = entries@;
        let t = prompts[i].text.as_str();
        proof {
            assert(next.drop_last() =~= part);
            assert(next.last() == t@);
            names::name_set_holds(part);
            assert forall|k: int| 0 <= k < before.len() implies (#[trigger] before[k]).count
                < usize::MAX by {
                lemma_count_of(part, before[k].prompt@);
                assert(part.len() == i);
            }
        }
        let slot: usize = find_slot(&entries, t);
        proof {
            let done = entry_names(before);
            assert forall|k: int| slot <= k < done.len() implies precedes(t@, #[trigger] done[k])
                && done[k] != t@ by {
                assert(done[k] == before[k].prompt@);
            }
            lemma_slot_inserts(done, t@, slot as int);
        }
        if slot > 0 && text::same(entries[slot - 1].prompt.as_str(), t) {
            let count: usize = entries[slot - 1].count;
            let name = entries[slot - 1].prompt.clone();
            proof {
                lemma_only_place(part, entry_names(before), slot - 1);
            }
            entries.set(slot - 1, FrequencyEntry { prompt: name, count: count + 1 });
            proof {
                assert(entry_names(entries@) =~= entry_names(before));
                assert forall|k: int| 0 <= k < entries@.len() implies (#[trigger]
                entries@[k]).count == count_of(next, entries@[k].prompt@) by {
                    if k != slot - 1 {
                        assert(entries@[k] == before[k]);
                        assert(entry_names(before)[k] == before[k].prompt@);
                        assert(entry_names(before)[slot - 1] == before[slot - 1].prompt@);
                    }
                }
            }
        } else {
            proof {
                lemma_count_of(part, t@);
                assert(!part.contains(t@)) by {
                    assert(!name_set(part).contains(t@)) by {
                        lemma_not_in_set(part, t@, slot as int);
                    }
                }
            }
            entries.insert(slot, FrequencyEntry { prompt: t.to_owned(), count: 1 });
            proof {
                assert(entry_names(entries@) =~= entry_names(before).insert(slot as int, t@));
                assert forall|k: int| 0 <= k < entries@.len() implies (#[trigger]
                entries@[k]).count == count_of(next, entries@[k].prompt@) by {
                    if k < slot {
                        assert(entries@[k] == before[k]);
                        assert(entry_names(before)[k] == before[k].prompt@);
                        assert(name_set(part).contains(before[k].prompt@));
                    } else if k > slot {
                        assert(entries@[k] == before[k - 1]);
                        assert(entry_names(before)[k - 1] == before[k - 1].prompt@);
                        assert(name_set(part).contains(before[k - 1].prompt@));
                    }
                }
            }
        }
        i = i + 1;
    }
    proof {
        assert(all.take(i as int) =~= all);
        assert(entry_views(entries@) =~= tallies(all)) by {
            assert forall|k: int| 0 <= k < entries@.len() implies entry_views(entries@)[k]
                == tallies(all)[k] by {
                assert(entry_names(entries@)[k] == entries@[k].prompt@);
            }
        }
    }
    entries
}

proof fn lemma_only_place(part: Seq<Seq<char>>, set: Seq<Seq<char>>, place: int)
    requires
        set == name_set(part),
        0 <= place < set.len(),
    ensures
        forall|k: int| 0 <= k < set.len() && k != place ==> #[trigger] set[k] != set[place],
{
    names::name_set_holds(part);
    assert forall|k: int| 0 <= k < set.len() && k != place implies #[trigger] set[k]
        != set[place] by {
        text::precedes_irreflexive(set[place]);
        if k < place {
            assert(precedes(set[k], set[place]));
        } else {
            assert(precedes(set[place], set[k]));
        }
    }
}

proof fn lemma_not_in_set(part: Seq<Seq<char>>, t: Seq<char>, slot: int)
    requires
        0 <= slot <= name_set(part).len(),
        forall|k: int|
            slot <= k < name_set(part).len() ==> precedes(t, #[trigger] name_set(part)[k])
                && name_set(part)[k] != t,
        slot > 0 ==> name_set(part)[slot - 1] != t && !precedes(t, name_set(part)[slot - 1]),
    ensures
        !name_set(part).contains(t),
{
    let set = name_set(part);
    names::name_set_holds(part);
    if set.contains(t) {
        let k = choose|k: int| 0 <= k < set.len() && set[k] == t;
        if k < slot - 1 {
            assert(precedes(set[k], set[slot - 1]));
        }
    }
}

/// The frequency of prompts.
pub fn compute_frequency(
    prompts: &Vec<Prompt>,
    min_count: Option<usize>,
    sort_by_length: bool,
) -> (r: Vec<FrequencyEntry>)
    ensures
        entry_views(r@) == frequency_of(texts(prompts@), min_count, sort_by_length),
{
    let all = tally(prompts);
    let ghost view = |e: FrequencyEntry| e@;
    let ghost enough = |e: FrequencyEntry| used_at_least(min_count)(e@);
    let ghost before = all@;
    let often = |e: &FrequencyEntry| -> (o: bool)
        ensures
            o == enough(*e),
        {
            match min_count {
                Some(min) => e.count >= min,
                None => true,
            }
        };
    let kept = order::keep(all, often, Ghost(enough));
    let ghost chosen = kept@;
    proof {
        order::lemma_filter_map(before, view, enough, used_at_least(min_count));
    }
    if sort_by_length {
        proof {
            order::sorting_maps(chosen, view, on_entries(longer()), longer());
        }
        order::sort(kept, is_longer, Ghost(on_entries(longer())))
    } else {
        proof {
            order::sorting_maps(chosen, view, on_entries(more_used()), more_used());
        }
        order::sort(kept, is_more_used, Ghost(on_entries(more_used())))
    }
}

/// The sum of the counts of a list of entries.
pub open spec fn total_count(entries: Seq<FrequencyView>) -> int
    decreases entries.len(),
{
    if entries.len() == 0 {
        0
    } else {
        total_count(entries.drop_last()) + entries.last().count
    }
}

/// The sum of how often the texts of a list of names are in another list.
spec fn counted(set: Seq<Seq<char>>, list: Seq<Seq<char>>) -> int
    decreases set.len(),
{
    if set.len() == 0 {
        0
    } else {
        counted(set.drop_last(), list) + count_of(list, set.last())
    }
}

proof fn lemma_counted_absent(set: Seq<Seq<char>>, list: Seq<Seq<char>>, t: Seq<char>)
    requires
        !set.contains(t),
    ensures
        counted(set, list.push(t)) == counted(set, list),
    decreases set.len(),
{
    if set.len() > 0 {
        let front = set.drop_last();
        assert(!front.contains(t)) by {
            if front.contains(t) {
                let k = choose|k: int| 0 <= k < front.len() && front[k] == t;
                assert(set[k] == t);
            }
        }
        lemma_counted_absent(front, list, t);
        assert(set[set.len() - 1] == set.last());
        assert(list.push(t).drop_last() =~= list);
    }
}

proof fn lemma_counted_present(set: Seq<Seq<char>>, list: Seq<Seq<char>>, t: Seq<char>)
    requires
        set.contains(t),
        set.no_duplicates(),
    ensures
        counted(set, list.push(t)) == counted(set, list) + 1,
    decreases set.len(),
{
    let front = set.drop_last();
    assert(list.push(t).drop_last() =~= list);
    if set.last() == t {
        assert(!front.contains(t)) by {
            if front.contains(t) {
                let k = choose|k: int| 0 <= k < front.len() && front[k] == t;
                assert(set[k] == set[set.len() - 1]);
            }
        }
        lemma_counted_absent(front, list, t);
    } else {
        let k = choose|k: int| 0 <= k < set.len() && set[k] == t;
        assert(front[k] == t);
        lemma_counted_present(front, list, t);
    }
}

proof fn lemma_counted_insert(set: Seq<Seq<char>>, t: Seq<char>, list: Seq<Seq<char>>)
    requires
        count_of(list, t) == 0,
    ensures
        counted(with_name(set, t), list) == counted(set, list),
    decreases set.len(),
{
    if set.len() == 0 {
        assert(seq![t].drop_last() =~= set);
        assert(counted(set, list) == 0);
        assert(counted(seq![t], list) == counted(seq![t].drop_last(), list) + count_of(list, t));
    } else if set.last() == t {
    } else if precedes(t, set.last()) {
        lemma_counted_insert(set.drop_last(), t, list);
        let inner = with_name(set.drop_last(), t);
        assert(inner.push(set.last()).drop_last() =~= inner);
    } else {
        assert(set.push(t).drop_last() =~= set);
    }
}

proof fn lemma_tallies_counted(set: Seq<Seq<char>>, list: Seq<Seq<char>>)
    ensures
        total_count(
            Seq::new(
                set.len(),
                |i: int| FrequencyView { prompt: set[i], count: count_of(list, set[i]) },
            ),
        ) == counted(set, list),
    decreases set.len(),
{
    let all = Seq::new(
        set.len(),
        |i: int| FrequencyView { prompt: set[i], count: count_of(list, set[i]) },
    );
    if set.len() > 0 {
        let front = set.drop_last();
        lemma_tallies_counted(front, list);
        assert(all.drop_last() =~= Seq::new(
            front.len(),
            |i: int| FrequencyView { prompt: front[i], count: count_of(list, front[i]) },
        ));
    }
}

/// The counts of all texts together are the number of prompts: every prompt is counted, and
/// none twice.
pub proof fn counts_cover_prompts_once(list: Seq<Seq<char>>)
    ensures
        total_count(tallies(list)) == list.len(),
    decreases list.len(),
{
    lemma_tallies_counted(name_set(list), list);
    if list.len() > 0 {
        let front = list.drop_last();
        let t = list.last();
        counts_cover_prompts_once(front);
        lemma_tallies_counted(name_set(front), front);
        names::name_set_holds(front);
        names::name_set_holds(list);
        let set = name_set(list);
        assert(set.no_duplicates()) by {
            assert forall|i: int, j: int| 0 <= i < j < set.len() implies set[i] != set[j] by {
                assert(precedes(set[i], set[j]));
                text::precedes_irreflexive(set[i]);
            }
        }
        assert(list =~= front.push(t));
        assert(list[list.len() - 1] == t);
        assert(list.contains(t));
        assert(set.contains(t));
        lemma_counted_present(set, front, t);
        lemma_count_of(front, t);
        if front.contains(t) {
            lemma_with_present(name_set(front), t, front);
        } else {
            lemma_counted_insert(name_set(front), t, front);
        }
    }
}

proof fn lemma_with_present(set: Seq<Seq<char>>, t: Seq<char>, list: Seq<Seq<char>>)
    requires
        set == name_set(list),
        list.contains(t),
    ensures
        with_name(set, t) == set,
{
    names::name_set_holds(list);
    assert(set.contains(t));
    let k = choose|k: int| 0 <= k < set.len() && set[k] == t;
    lemma_with_present_at(set, t, k);
}

proof fn lemma_with_present_at(set: Seq<Seq<char>>, t: Seq<char>, k: int)
    requires
        names::names_ascend(set),
        0 <= k < set.len(),
        set[k] == t,
    ensures
        with_name(set, t) == set,
    decreases set.len(),
{
    if set.last() != t {
        assert(precedes(set[k], set[set.len() - 1]));
        let front = set.drop_last();
        assert forall|i: int, j: int| 0 <= i < j < front.len() implies precedes(
            #[trigger] front[i],
            #[trigger] front[j],
        ) by {
            assert(front[i] == set[i] && front[j] == set[j]);
        }
        assert(front[k] == t);
        lemma_with_present_at(front, t, k);
        assert(front.push(set.last()) =~= set);
    }
}

// ---------------------------------------------------------------------------
// Statistics
// ---------------------------------------------------------------------------

/// How many prompts have a length in each range.
#[derive(Debug, Clone, Copy, PartialEq, Eq, Structural)]
pub struct LengthDistribution {
    /// Below 100 characters.
    pub under_100: usize,
    /// From 100 to below 500.
    pub from_100_to_500: usize,
    /// From 500 to below 1000.
    pub from_500_to_1000: usize,
    /// From 1000 to below 5000.
    pub from_1000_to_5000: usize,
    /// From 5000.
    pub over_5000: usize,
}

/// Statistics about prompts.
#[derive(Debug, Clone, PartialEq, Eq)]
pub struct PromptsStats {
    /// The number of prompts.
    pub total_prompts: usize,
    /// The number of different texts.
    pub unique_prompts: usize,
    /// The number of texts that were used once.
    pub single_use_prompts: usize,
    /// The number of texts that were used more than once.
    pub reused_prompts: usize,
    /// The number of characters of all prompts.
    pub total_characters: u128,
    /// The length in the middle.
    pub median_length: usize,
    /// The least length.
    pub min_length: usize,
    /// The greatest length.
    pub max_length: usize,
    /// How many prompts have a length in each range; none where there are no prompts.
    pub length_distribution: Option<LengthDistribution>,
    /// The texts that were used most.
    pub top_prompts: Vec<FrequencyEntry>,
}

/// The lengths of a list of texts, in characters.
pub open spec fn lengths(list: Seq<Seq<char>>) -> Seq<int> {
    Seq::new(list.len(), |i: int| list[i].len() as int)
}

/// The number of characters of all texts.
pub open spec fn characters(list: Seq<Seq<char>>) -> int
    decreases list.len(),
{
    if list.len() == 0 {
        0
    } else {
        characters(list.drop_last()) + list.last().len()
    }
}

/// Less.
pub open spec fn less() -> spec_fn(int, int) -> bool {
    |a: int, b: int| a < b
}

/// The lengths in ascending order.
pub open spec fn ascending(list: Seq<Seq<char>>) -> Seq<int> {
    sorted_by(lengths(list), less())
}

/// The number of texts whose length is at least `low` and below `high`.
pub open spec fn in_range(list: Seq<Seq<char>>, low: int, high: Option<int>) -> int
    decreases list.len(),
{
    if list.len() == 0 {
        0
    } else {
        let n = list.last().len() as int;
        in_range(list.drop_last(), low, high) + (if low <= n && (match high {
            Some(h) => n < h,
            None => true,
        }) {
            1int
        } else {
            0int
        })
    }
}

/// Used once.
pub open spec fn used_once() -> spec_fn(FrequencyView) -> bool {
    |e: FrequencyView| e.count == 1
}

/// The statistics of a list of texts.
pub open spec fn are_stats_of(stats: PromptsStats, list: Seq<Seq<char>>) -> bool {
    let sorted = ascending(list);
    &&& stats.total_prompts == list.len()
    &&& stats.unique_prompts == tallies(list).len()
    &&& stats.single_use_prompts == tallies(list).filter(used_once()).len()
    &&& stats.reused_prompts == stats.unique_prompts - stats.single_use_prompts
    &&& stats.total_characters == characters(list)
    &&& stats.median_length == (if list.len() == 0 {
        0
    } else {
        sorted[list.len() as int / 2]
    })
    &&& stats.min_length == (if list.len() == 0 {
        0
    } else {
        sorted[0]
    })
    &&& stats.max_length == (if list.len() == 0 {
        0
    } else {
        sorted[list.len() - 1]
    })
    &&& match stats.length_distribution {
        None => list.len() == 0,
        Some(d) => {
            &&& list.len() > 0
            &&& d.under_100 == in_range(list, 0, Some(100))
            &&& d.from_100_to_500 == in_range(list, 100, Some(500))
            &&& d.from_500_to_1000 == in_range(list, 500, Some(1000))
            &&& d.from_1000_to_5000 == in_range(list, 1000, Some(5000))
            &&& d.over_5000 == in_range(list, 5000, None)
        },
    }
    &&& entry_views(stats.top_prompts@) == first_of_list(frequency_of(list, None, false), 10)
}

/// The ranges of lengths leave no prompt out and count none twice.
pub proof fn ranges_cover_prompts_once(list: Seq<Seq<char>>)
    ensures
        in_range(list, 0, Some(100)) + in_range(list, 100, Some(500)) + in_range(
            list,
            500,
            Some(1000),
        ) + in_range(list, 1000, Some(5000)) + in_range(list, 5000, None) == list.len(),
    decreases list.len(),
{
    if list.len() > 0 {
        ranges_cover_prompts_once(list.drop_last());
    }
}

/// The least length, the middle one and the greatest one are in that order.
pub proof fn median_lies_between(stats: PromptsStats, list: Seq<Seq<char>>)
    requires
        are_stats_of(stats, list),
    ensures
        stats.min_length <= stats.median_length <= stats.max_length,
        forall|i: int|
            0 <= i < list.len() ==> stats.min_length <= (#[trigger] list[i]).len()
                <= stats.max_length,
{
    let all = lengths(list);
    let sorted = ascending(list);
    order::sorting_orders(all, less());
    order::sorting_permutes(all, less());
    assert forall|i: int| 0 <= i < list.len() implies stats.min_length <= (#[trigger]
    list[i]).len() <= stats.max_length by {
        assert(all[i] == list[i].len());
        assert(all.contains(all[i]));
        order::lemma_sorted_contains(all, less(), all[i]);
        let k = choose|k: int| 0 <= k < sorted.len() && sorted[k] == all[i];
        if 0 < k {
            assert(!less()(sorted[k], sorted[0]));
        }
        if k < sorted.len() - 1 {
            assert(!less()(sorted[sorted.len() - 1], sorted[k]));
        }
    }
    if list.len() > 0 {
        let m = list.len() as int / 2;
        if 0 < m {
            assert(!less()(sorted[m], sorted[0]));
        }
        if m < sorted.len() - 1 {
            assert(!less()(sorted[sorted.len() - 1], sorted[m]));
        }
    }
}

spec fn less_exec() -> spec_fn(usize, usize) -> bool {
    |a: usize, b: usize| a < b
}

fn is_less(a: &usize, b: &usize) -> (o: bool)
    ensures
        o == less_exec()(*a, *b),
{
    *a < *b
}

/// Statistics about prompts.
#[verifier::rlimit(40)]
pub fn compute_stats(prompts: &Vec<Prompt>) -> (r: PromptsStats)
    ensures
        are_stats_of(r, texts(prompts@)),
{
    let ghost list = texts(prompts@);
    let total: usize = prompts.len();
    let entries = tally(prompts);
    let unique: usize = entries.len();
    let ghost view = |e: FrequencyEntry| e@;
    let ghost once = |e: FrequencyEntry| used_once()(e@);
    let is_once = |e: &FrequencyEntry| -> (o: bool)
        ensures
            o == once(*e),
        { e.count == 1 };
    let single: usize = order::count(&entries, is_once, Ghost(once));
    proof {
        order::lemma_filter_map(entries@, view, once, used_once());
        assert(entries@.filter(once).map_values(view).len() == entries@.filter(once).len());
    }
    let mut sizes: Vec<usize> = Vec::new();
    let mut sum: u128 = 0;
    let mut under_100: usize = 0;
    let mut from_100_to_500: usize = 0;
    let mut from_500_to_1000: usize = 0;
    let mut from_1000_to_5000: usize = 0;
    let mut over_5000: usize = 0;
    let mut i: usize = 0;
    proof {
        assert(list.take(0) =~= Seq::empty());
    }
    while i < prompts.len()
        invariant
            list == texts(prompts@),
            i <= prompts@.len(),
            sum <= i * 0xffff_ffff_ffff_ffff,
            sizes@.len() == i,
            forall|k: int| 0 <= k < i ==> #[trigger] sizes@[k] == list[k].len(),
            sum == characters(list.take(i as int)),
            under_100 == in_range(list.take(i as int), 0, Some(100)),
            from_100_to_500 == in_range(list.take(i as int), 100, Some(500)),
            from_500_to_1000 == in_range(list.take(i as int), 500, Some(1000)),
            from_1000_to_5000 == in_range(list.take(i as int), 1000, Some(5000)),
            over_5000 == in_range(list.take(i as int), 5000, None),
            under_100 <= i,
            from_100_to_500 <= i,
            from_500_to_1000 <= i,
            from_1000_to_5000 <= i,
            over_5000 <= i,
        decreases prompts@.len() - i,
    {
        proof {
            assert(list.take(i + 1).drop_last() =~= list.take(i as int));
            assert(list.take(i + 1).last() == list[i as int]);
        }
        let n: usize = prompts[i].text.as_str().unicode_len();
        sizes.push(n);
        sum = sum + n as u128;
        if n < 100 {
            under_100 = under_100 + 1;
        } else if n < 500 {
            from_100_to_500 = from_100_to_500 + 1;
        } else if n < 1000 {
            from_500_to_1000 = from_500_to_1000 + 1;
        } else if n < 5000 {
            from_1000_to_5000 = from_1000_to_5000 + 1;
        } else {
            over_5000 = over_5000 + 1;
        }
        i = i + 1;
    }
    proof {
        assert(list.take(i as int) =~= list);
    }
    let ghost unsorted = sizes@;
    let sizes = order::sort(sizes, is_less, Ghost(less_exec()));
    proof {
        let f = |n: usize| n as int;
        order::sorting_maps(unsorted, f, less_exec(), less());
        assert(unsorted.map_values(f) =~= lengths(list));
        order::sorting_permutes(lengths(list), less());
        assert(sizes@.map_values(f) == ascending(list));
        assert(sizes@.len() == list.len());
        assert forall|k: int| 0 <= k < sizes@.len() implies #[trigger] sizes@[k] as int
            == ascending(list)[k] by {
            assert(sizes@.map_values(f)[k] == sizes@[k] as int);
        }
    }
    let median: usize = if sizes.len() == 0 {
        0
    } else {
        sizes[sizes.len() / 2]
    };
    let least: usize = if sizes.len() == 0 {
        0
    } else {
        sizes[0]
    };
    let most: usize = if sizes.len() == 0 {
        0
    } else {
        sizes[sizes.len() - 1]
    };
    let distribution: Option<LengthDistribution> = if total > 0 {
        Some(
            LengthDistribution {
                under_100,
                from_100_to_500,
                from_500_to_1000,
                from_1000_to_5000,
                over_5000,
            },
        )
    } else {
        None
    };
    let mut top = compute_frequency(prompts, None, false);
    let ghost whole = top@;
    if top.len() > 10 {
        top.truncate(10);
    }
    proof {
        assert(entry_views(top@) =~= first_of_list(entry_views(whole), 10));
    }
    PromptsStats {
        total_prompts: total,
        unique_prompts: unique,
        single_use_prompts: single,
        reused_prompts: unique - single,
        total_characters: sum,
        median_length: median,
        min_length: least,
        max_length: most,
        length_distribution: distribution,
        top_prompts: top,
    }
}

// ---------------------------------------------------------------------------
// Searching and filtering
// ---------------------------------------------------------------------------

/// The prompts without those whose text came before.
pub open spec fn deduped(prompts: Seq<Prompt>) -> Seq<Prompt>
    decreases prompts.len(),
{
    if prompts.len() == 0 {
        prompts
    } else {
        let front = prompts.drop_last();
        if texts(front).contains(prompts.last().text@) {
            deduped(front)
        } else {
            deduped(front).push(prompts.last())
        }
    }
}

/// The prompts without those whose text came before, in the order in which they came.
pub fn deduplicate_prompts(prompts: Vec<Prompt>) -> (r: Vec<Prompt>)
    ensures
        r@ == deduped(prompts@),
{
    let ghost all = prompts@;
    let mut seen: Vec<String> = Vec::new();
    let mut out: Vec<Prompt> = Vec::new();
    proof {
        assert(all.take(0) =~= Seq::empty());
        assert(views(seen@) =~= Seq::empty());
        assert(texts(all.take(0)) =~= Seq::empty());
    }
    for prompt in it: prompts
        invariant
            it.seq() == all,
            out@ == deduped(all.take(it.index() as int)),
            views(seen@) == texts(all.take(it.index() as int)),
    {
        proof {
            let next = all.take(it.index() + 1);
            assert(next.drop_last() =~= all.take(it.index() as int));
            assert(next.last() == prompt);
            assert(texts(next) =~= texts(next.drop_last()).push(prompt.text@));
        }
        let known: bool = names::holds_name(&seen, prompt.text.as_str());
        text::say(&mut seen, prompt.text.as_str());
        if !known {
            out.push(prompt);
        }
    }
    proof {
        assert(all.take(all.len() as int) =~= all);
    }
    out
}

/// No text is left twice, and every text is left.
pub proof fn deduped_texts(prompts: Seq<Prompt>)
    ensures
        texts(deduped(prompts)).no_duplicates(),
        forall|t: Seq<char>| #[trigger]
            texts(deduped(prompts)).contains(t) <==> texts(prompts).contains(t),
    decreases prompts.len(),
{
    if prompts.len() > 0 {
        let front = prompts.drop_last();
        let last = prompts.last();
        deduped_texts(front);
        let before = texts(deduped(front));
        let all = texts(prompts);
        assert(all =~= texts(front).push(last.text@));
        if texts(front).contains(last.text@) {
            assert forall|t: Seq<char>| #[trigger] before.contains(t) <==> all.contains(t) by {
                lemma_push_contains(texts(front), last.text@, t);
            }
        } else {
            let after = texts(deduped(prompts));
            assert(after =~= before.push(last.text@));
            assert(!before.contains(last.text@));
            assert forall|t: Seq<char>| #[trigger] after.contains(t) <==> all.contains(t) by {
                lemma_push_contains(texts(front), last.text@, t);
                lemma_push_contains(before, last.text@, t);
            }
        }
    }
}

/// No prompt before this one has its text.
pub open spec fn is_first_with_text(prompts: Seq<Prompt>, i: int) -> bool {
    0 <= i < prompts.len() && forall|j: int|
        0 <= j < i ==> (#[trigger] prompts[j]).text@ != prompts[i].text@
}

proof fn lemma_first_in_front(prompts: Seq<Prompt>, i: int)
    requires
        0 <= i < prompts.len() - 1,
    ensures
        is_first_with_text(prompts, i) == is_first_with_text(prompts.drop_last(), i),
{
    let front = prompts.drop_last();
    if is_first_with_text(prompts, i) {
        assert forall|j: int| 0 <= j < i implies (#[trigger] front[j]).text@ != front[i].text@ by {
            assert(prompts[j] == front[j]);
        }
    }
    if is_first_with_text(front, i) {
        assert forall|j: int| 0 <= j < i implies (#[trigger] prompts[j]).text@
            != prompts[i].text@ by {
            assert(prompts[j] == front[j]);
        }
    }
}

proof fn lemma_last_is_first(prompts: Seq<Prompt>)
    requires
        prompts.len() > 0,
    ensures
        is_first_with_text(prompts, prompts.len() - 1) == !texts(prompts.drop_last()).contains(
            prompts.last().text@,
        ),
{
    let front = texts(prompts.drop_last());
    let n = prompts.len() - 1;
    if front.contains(prompts.last().text@) {
        let j = choose|j: int| 0 <= j < front.len() && front[j] == prompts.last().text@;
        assert(prompts[j].text@ == prompts[n].text@);
    } else {
        assert forall|j: int| 0 <= j < n implies (#[trigger] prompts[j]).text@
            != prompts[n].text@ by {
            assert(front[j] == prompts[j].text@);
        }
    }
}

/// Of the prompts with one text the first is left: a prompt whose text did not come before it is
/// left, and every prompt that is left is such a one.
pub proof fn first_of_each_text_is_left(prompts: Seq<Prompt>)
    ensures
        forall|i: int| #[trigger]
            is_first_with_text(prompts, i) ==> deduped(prompts).contains(prompts[i]),
        forall|k: int|
            0 <= k < deduped(prompts).len() ==> exists|i: int| #[trigger]
                is_first_with_text(prompts, i) && prompts[i] == #[trigger] deduped(prompts)[k],
    decreases prompts.len(),
{
    if prompts.len() > 0 {
        let front = prompts.drop_last();
        let last = prompts.last();
        let (all, before) = (deduped(prompts), deduped(front));
        first_of_each_text_is_left(front);
        lemma_last_is_first(prompts);
        assert forall|i: int| #[trigger] is_first_with_text(prompts, i) implies all.contains(
            prompts[i],
        ) by {
            if i < front.len() {
                lemma_first_in_front(prompts, i);
                assert(before.contains(front[i]));
                let k = choose|k: int| 0 <= k < before.len() && before[k] == front[i];
                assert(all[k] == prompts[i]);
            } else {
                assert(all[all.len() - 1] == last);
            }
        }
        assert forall|k: int| 0 <= k < all.len() implies exists|i: int| #[trigger]
            is_first_with_text(prompts, i) && prompts[i] == #[trigger] all[k] by {
            if k < before.len() {
                assert(all[k] == before[k]);
                let i = choose|i: int| #[trigger]
                    is_first_with_text(front, i) && front[i] == before[k];
                lemma_first_in_front(prompts, i);
                assert(prompts[i] == all[k]);
            } else {
                assert(is_first_with_text(prompts, prompts.len() - 1));
                assert(prompts[prompts.len() - 1] == all[k]);
            }
        }
    }
}

proof fn lemma_push_contains(s: Seq<Seq<char>>, x: Seq<char>, t: Seq<char>)
    ensures
        s.push(x).contains(t) <==> s.contains(t) || t == x,
{
    let p = s.push(x);
    if s.contains(t) {
        let k = choose|k: int| 0 <= k < s.len() && s[k] == t;
        assert(p[k] == t);
    }
    if t == x {
        assert(p[s.len() as int] == t);
    }
    if p.contains(t) {
        let k = choose|k: int| 0 <= k < p.len() && p[k] == t;
        if k < s.len() {
            assert(s[k] == t);
        }
    }
}

/// Removing repeated prompts a second time changes nothing.
pub proof fn deduping_twice_changes_nothing(prompts: Seq<Prompt>)
    ensures
        deduped(deduped(prompts)) == deduped(prompts),
{
    deduped_texts(prompts);
    lemma_distinct_stays(deduped(prompts));
}

proof fn lemma_distinct_stays(prompts: Seq<Prompt>)
    requires
        texts(prompts).no_duplicates(),
    ensures
        deduped(prompts) == prompts,
    decreases prompts.len(),
{
    if prompts.len() > 0 {
        let front = prompts.drop_last();
        assert(texts(front) =~= texts(prompts).drop_last());
        lemma_distinct_stays(front);
        assert(!texts(front).contains(prompts.last().text@)) by {
            if texts(front).contains(prompts.last().text@) {
                let k = choose|k: int|
                    0 <= k < front.len() && texts(front)[k] == prompts.last().text@;
                assert(texts(prompts)[k] == texts(prompts)[prompts.len() - 1]);
            }
        }
        assert(front.push(prompts.last()) =~= prompts);
    }
}

/// A text cut to a number of characters, the dots included.
pub open spec fn display_cut(s: Seq<char>, max_chars: int) -> Seq<char> {
    if s.len() <= max_chars {
        s
    } else if max_chars <= 3 {
        s.take(max_chars)
    } else {
        s.take(max_chars - 3) + "..."@
    }
}

/// Cuts a text to a number of characters, the dots included.
pub fn truncate_prompt_display(s: &str, max_chars: usize) -> (r: String)
    ensures
        r@ == display_cut(s@, max_chars as int),
{
    let n: usize = s.unicode_len();
    if n <= max_chars {
        s.to_owned()
    } else if max_chars <= 3 {
        text::take_chars(s, max_chars)
    } else {
        let front = text::take_chars(s, max_chars - 3);
        text::cat2(front.as_str(), "...")
    }
}

/// A cut text is never longer than what was asked for.
pub proof fn display_cut_fits(s: Seq<char>, max_chars: int)
    requires
        0 <= max_chars,
    ensures
        display_cut(s, max_chars).len() <= max_chars,
{
    reveal_strlit("...");
}

/// A text that fits is left as it is; of a longer one as many characters are shown as can be: its
/// beginning, with three dots for the last three where more than three fit.
pub proof fn cut_texts_show_their_beginning(s: Seq<char>, max_chars: int)
    requires
        0 <= max_chars,
    ensures
        s.len() <= max_chars ==> display_cut(s, max_chars) == s,
        s.len() > max_chars ==> {
            let r = display_cut(s, max_chars);
            &&& r.len() == max_chars
            &&& forall|i: int|
                0 <= i < max_chars ==> #[trigger] r[i] == (if max_chars > 3 && i >= max_chars - 3 {
                    '.'
                } else {
                    s[i]
                })
        },
{
    reveal_strlit("...");
}

/// A prompt mentions a phrase where the characters of the phrase stand in it one after another;
/// without regard to case, where that holds of both in small letters.
pub proof fn mentioned_phrases_stand_in_prompts(
    p: Prompt,
    phrase: Seq<char>,
    before: Seq<char>,
    after: Seq<char>,
)
    ensures
        p.text@ == before + phrase + after ==> mentions(phrase, false)(p),
        lowercase(p.text@) == before + lowercase(phrase) + after ==> mentions(phrase, true)(p),
        mentions(phrase, false)(p) ==> exists|b: Seq<char>, a: Seq<char>|
            p.text@ == #[trigger] (b + phrase + a),
        mentions(phrase, true)(p) ==> exists|b: Seq<char>, a: Seq<char>|
            lowercase(p.text@) == #[trigger] (b + lowercase(phrase) + a),
{
    text::parts_make_the_whole(p.text@, phrase, before, after);
    text::parts_make_the_whole(lowercase(p.text@), lowercase(phrase), before, after);
}

/// The text holds the phrase, with or without regard to case.
pub open spec fn mentions(phrase: Seq<char>, ignore_case: bool) -> spec_fn(Prompt) -> bool {
    |p: Prompt|
        if ignore_case {
            has(lowercase(p.text@), lowercase(phrase))
        } else {
            has(p.text@, phrase)
        }
}

/// The number of prompts that hold a phrase.
pub fn count_contains(prompts: &Vec<Prompt>, phrase: &str, ignore_case: bool) -> (r: usize)
    ensures
        r == prompts@.filter(mentions(phrase@, ignore_case)).len(),
        r <= prompts@.len(),
{
    let lower = text::to_lowercase(phrase);
    let holds = |p: &Prompt| -> (o: bool)
        ensures
            o == mentions(phrase@, ignore_case)(*p),
        {
            if ignore_case {
                let t = text::to_lowercase(p.text.as_str());
                text::contains(t.as_str(), lower.as_str())
            } else {
                text::contains(p.text.as_str(), phrase)
            }
        };
    order::count(prompts, holds, Ghost(mentions(phrase@, ignore_case)))
}

/// A regular expression that compiles.
#[derive(Debug)]
pub struct GrepRegex {
    pattern: String,
    ignore_case: bool,
}

impl GrepRegex {
    /// The expression.
    pub closed spec fn expression(&self) -> Seq<char> {
        self.pattern@
    }

    /// Case makes no difference.
    pub closed spec fn any_case(&self) -> bool {
        self.ignore_case
    }

    #[verifier::type_invariant]
    spec fn compiles(&self) -> bool {
        build_error(self.pattern@, self.ignore_case) is None
    }

    /// A regular expression, where it compiles; else what is wrong with it.
    pub fn new(pattern: &str, ignore_case: bool) -> (r: Result<GrepRegex, SnatchError>)
        ensures
            match build_error(pattern@, ignore_case) {
                None => r matches Ok(g) && g.expression() == pattern@ && g.any_case()
                    == ignore_case,
                Some(message) => r matches Err(e) && e@ == invalid(
                    "grep"@,
                    "Invalid regex pattern: "@ + message,
                ),
            },
    {
        match patterns::why_not_compiled(pattern, ignore_case) {
            None => Ok(GrepRegex { pattern: pattern.to_owned(), ignore_case }),
            Some(message) => Err(
                invalid_argument("grep", text::cat2("Invalid regex pattern: ", message.as_str())),
            ),
        }
    }

    /// The expression matches somewhere in a text.
    pub open spec fn finds(&self, s: Seq<char>) -> bool {
        matches_text(self.expression(), self.any_case(), s) == Some(true)
    }

    /// Whether the expression matches somewhere in a text.
    pub fn is_match(&self, s: &str) -> (r: bool)
        ensures
            r == self.finds(s@),
    {
        match patterns::is_match(self.pattern.as_str(), self.ignore_case, s) {
            Some(found) => found,
            None => false,
        }
    }
}

/// The regular expression that is asked for, where one is.
pub fn build_grep_regex(grep: &Option<String>, ignore_case: bool) -> (r: Result<
    Option<GrepRegex>,
    SnatchError,
>)
    ensures
        match grep {
            None => r == Ok::<Option<GrepRegex>, SnatchError>(None),
            Some(pattern) => match build_error(pattern@, ignore_case) {
                None => r matches Ok(Some(g)) && g.expression() == pattern@ && g.any_case()
                    == ignore_case,
                Some(message) => r matches Err(e) && e@ == invalid(
                    "grep"@,
                    "Invalid regex pattern: "@ + message,
                ),
            },
        },
{
    match grep {
        Some(pattern) => match GrepRegex::new(pattern.as_str(), ignore_case) {
            Ok(regex) => Ok(Some(regex)),
            Err(e) => Err(e),
        },
        None => Ok(None),
    }
}

/// The expression matches the prompt, or does not where the match is inverted.
pub open spec fn found_by(regex: GrepRegex, invert: bool) -> spec_fn(Prompt) -> bool {
    |p: Prompt| regex.finds(p.text@) != invert
}

/// The prompts that a regular expression finds, or with `invert` those that it does not find.
pub fn filter_prompts_by_grep(prompts: Vec<Prompt>, regex: Option<&GrepRegex>, invert: bool) -> (r:
    Vec<Prompt>)
    ensures
        r@ == (match regex {
            Some(g) => prompts@.filter(found_by(*g, invert)),
            None => prompts@,
        }),
{
    match regex {
        Some(g) => {
            let finds = |p: &Prompt| -> (o: bool)
                ensures
                    o == found_by(*g, invert)(*p),
                { g.is_match(p.text.as_str()) != invert };
            order::keep(prompts, finds, Ghost(found_by(*g, invert)))
        },
        None => prompts,
    }
}

/// A prompt is found either by an expression or by its inversion, and never by both: together
/// they find as many as there are.
pub proof fn inversion_splits_prompts(prompts: Seq<Prompt>, regex: GrepRegex)
    ensures
        forall|p: Prompt| #[trigger] found_by(regex, false)(p) != found_by(regex, true)(p),
        prompts.filter(found_by(regex, false)).len() + prompts.filter(found_by(regex, true)).len()
            == prompts.len(),
    decreases prompts.len(),
{
    broadcast use Seq::lemma_filter_push;

    if prompts.len() > 0 {
        inversion_splits_prompts(prompts.drop_last(), regex);
        assert(prompts =~= prompts.drop_last().push(prompts.last()));
    }
}

/// Text that was written by a person: no message of the system, and none of the texts that a
/// continued session begins with.
pub open spec fn is_typed() -> spec_fn(Prompt) -> bool {
    |p: Prompt|
        !p.is_noise && !begins(p.text@, "Caveat: The messages below"@) && !begins(
            p.text@,
            "This session is being continued from a previous conversation"@,
        )
}

/// The prompts without messages of the system.
pub fn filter_system_messages(prompts: Vec<Prompt>) -> (r: Vec<Prompt>)
    ensures
        r@ == prompts@.filter(is_typed()),
{
    let typed = |p: &Prompt| -> (o: bool)
        ensures
            o == is_typed()(*p),
        {
            !p.is_noise && !text::starts_with(p.text.as_str(), "Caveat: The messages below")
                && !text::starts_with(
                p.text.as_str(),
                "This session is being continued from a previous conversation",
            )
        };
    order::keep(prompts, typed, Ghost(is_typed()))
}

/// A prompt is left if and only if, where messages of the system are unwanted, it is none and does
/// not begin like a continued session, and the expression finds it or, inverted, does not.
pub proof fn wanted_prompts_are_left(
    prompts: Seq<Prompt>,
    exclude_system: bool,
    regex: Option<GrepRegex>,
    invert: bool,
    p: Prompt,
)
    ensures
        wanted(prompts, exclude_system, regex, invert).contains(p) <==> {
            &&& prompts.contains(p)
            &&& exclude_system ==> !p.is_noise && !begins(
                p.text@,
                "Caveat: The messages below"@,
            ) && !begins(
                p.text@,
                "This session is being continued from a previous conversation"@,
            )
            &&& regex matches Some(g) ==> (if invert {
                !g.finds(p.text@)
            } else {
                g.finds(p.text@)
            })
        },
{
    let typed = if exclude_system {
        prompts.filter(is_typed())
    } else {
        prompts
    };
    order::filtering_is_exact(prompts, is_typed());
    assert(prompts.filter(is_typed()).contains(p) <==> prompts.contains(p) && is_typed()(p));
    match regex {
        Some(g) => {
            order::filtering_is_exact(typed, found_by(g, invert));
            assert(typed.filter(found_by(g, invert)).contains(p) <==> typed.contains(p)
                && found_by(g, invert)(p));
        },
        None => {},
    }
}

/// What is left of the prompts of a session: without messages of the system where those are
/// unwanted, and only those that the expression finds.
pub open spec fn wanted(
    prompts: Seq<Prompt>,
    exclude_system: bool,
    regex: Option<GrepRegex>,
    invert: bool,
) -> Seq<Prompt> {
    let typed = if exclude_system {
        prompts.filter(is_typed())
    } else {
        prompts
    };
    match regex {
        Some(g) => typed.filter(found_by(g, invert)),
        None => typed,
    }
}

/// What is left of the prompts of a session.
pub fn keep_wanted(
    prompts: Vec<Prompt>,
    exclude_system: bool,
    regex: &Option<GrepRegex>,
    invert: bool,
) -> (r: Vec<Prompt>)
    ensures
        r@ == wanted(prompts@, exclude_system, *regex, invert),
{
    let typed = if exclude_system {
        filter_system_messages(prompts)
    } else {
        prompts
    };
    filter_prompts_by_grep(typed, regex.as_ref(), invert)
}

// ---------------------------------------------------------------------------
// Dates
// ---------------------------------------------------------------------------

/// What is known of when a session took place.
#[derive(Debug, Clone, Copy, PartialEq, Eq)]
pub struct SessionProjectContext {
    /// When it began.
    pub started_at: Option<i128>,
    /// When it ended.
    pub ended_at: Option<i128>,
    /// When its file was modified.
    pub modified_at: Option<i128>,
    /// Whether more may follow the end that is known.
    pub native_tail_unresolved: bool,
}

/// The end of a session that its own records prove.
pub open spec fn native_end(context: SessionProjectContext) -> Option<i128> {
    if context.native_tail_unresolved {
        None
    } else {
        context.ended_at
    }
}

/// The later of two times, where one is known.
pub open spec fn later(a: Option<i128>, b: Option<i128>) -> Option<i128> {
    if time_before(a, b) {
        b
    } else {
        a
    }
}

/// The latest time that a session can be known to have been active: its proven end, else the
/// latest of all times that are known.
pub open spec fn last_activity(context: SessionProjectContext) -> Option<i128> {
    match native_end(context) {
        Some(t) => Some(t),
        None => later(later(context.ended_at, context.started_at), context.modified_at),
    }
}

/// The session may have been active in a span of time: only what is known can exclude it.
pub open spec fn may_overlap(
    context: SessionProjectContext,
    since: Option<i128>,
    until: Option<i128>,
) -> bool {
    &&& !time_known_before(last_activity(context), since)
    &&& !time_known_before(until, context.started_at)
}

/// Both times are known and the first is earlier.
pub open spec fn time_known_before(a: Option<i128>, b: Option<i128>) -> bool {
    a is Some && b is Some && a->0 < b->0
}

/// A bound was applied to a session whose own records do not prove the time that it bounds.
pub open spec fn used_fallback(
    context: SessionProjectContext,
    since: Option<i128>,
    until: Option<i128>,
) -> bool {
    ||| since is Some && native_end(context) is None
    ||| until is Some && context.started_at is None
}

fn known_before(a: Option<i128>, b: Option<i128>) -> (r: bool)
    ensures
        r == time_known_before(a, b),
{
    match (a, b) {
        (Some(x), Some(y)) => x < y,
        _ => false,
    }
}

fn later_time(a: Option<i128>, b: Option<i128>) -> (r: Option<i128>)
    ensures
        r == later(a, b),
{
    if order::earlier(a, b) {
        b
    } else {
        a
    }
}

/// Whether a session may have been active in a span of time, and whether that rests on times
/// that its own records do not prove.
pub fn context_overlaps_date_range(
    context: &SessionProjectContext,
    since: Option<i128>,
    until: Option<i128>,
) -> (r: (bool, bool))
    ensures
        r.0 == may_overlap(*context, since, until),
        r.1 == used_fallback(*context, since, until),
{
    let proven: Option<i128> = if context.native_tail_unresolved {
        None
    } else {
        context.ended_at
    };
    let end: Option<i128> = match proven {
        Some(t) => Some(t),
        None => later_time(later_time(context.ended_at, context.started_at), context.modified_at),
    };
    let fallback: bool = (since.is_some() && proven.is_none()) || (until.is_some()
        && context.started_at.is_none());
    if known_before(end, since) {
        return (false, fallback);
    }
    if known_before(until, context.started_at) {
        return (false, fallback);
    }
    (true, fallback)
}

/// A session whose beginning is not known is never left out for beginning too late, and one of
/// which no time is known is never left out at all.
pub proof fn unknown_times_exclude_nothing(
    context: SessionProjectContext,
    since: Option<i128>,
    until: Option<i128>,
)
    ensures
        context.started_at is None ==> may_overlap(context, None, until),
        context.started_at is None && context.ended_at is None && context.modified_at is None
            ==> may_overlap(context, since, until),
        may_overlap(context, None, None) && !used_fallback(context, None, None),
{
}

/// A session is left out for what is known of it and for nothing else: where its end is proven,
/// for ending before the span; else for having every known time before it; and for beginning after
/// the span.
pub proof fn known_times_exclude_sessions(
    context: SessionProjectContext,
    since: Option<i128>,
    until: Option<i128>,
)
    ensures
        may_overlap(context, since, until) <==> {
            &&& since matches Some(s) ==> (if context.ended_at is Some
                && !context.native_tail_unresolved {
                s <= context.ended_at->0
            } else {
                ||| context.started_at is None && context.ended_at is None && context.modified_at
                    is None
                ||| (context.started_at matches Some(t) && s <= t)
                ||| (context.ended_at matches Some(t) && s <= t)
                ||| (context.modified_at matches Some(t) && s <= t)
            })
            &&& until matches Some(u) ==> (context.started_at matches Some(t) ==> t <= u)
        },
        used_fallback(context, since, until) <==> (since is Some && (context.ended_at is None
            || context.native_tail_unresolved)) || (until is Some && context.started_at is None),
{
}

/// A wider span of time never leaves out a session that a narrower one keeps.
pub proof fn wider_spans_keep_more(
    context: SessionProjectContext,
    since: i128,
    until: i128,
    earlier_since: i128,
    later_until: i128,
)
    requires
        earlier_since <= since,
        until <= later_until,
        may_overlap(context, Some(since), Some(until)),
    ensures
        may_overlap(context, Some(earlier_since), Some(later_until)),
        may_overlap(context, None, Some(later_until)),
        may_overlap(context, Some(earlier_since), None),
{
}

/// Sent earlier; of two sent at once, the one whose tie breaker comes first.
pub open spec fn sent_before() -> spec_fn(Prompt, Prompt) -> bool {
    |a: Prompt, b: Prompt|
        a.sort_timestamp < b.sort_timestamp || (a.sort_timestamp == b.sort_timestamp && precedes(
            a.sort_tiebreak@,
            b.sort_tiebreak@,
        ))
}

/// Sorted prompts stand in the order in which they were sent, and those sent at once in the order
/// of their tie breakers.
pub proof fn earlier_prompts_come_first(prompts: Seq<Prompt>)
    ensures
        ({
            let r = sorted_by(prompts, sent_before());
            &&& r.len() == prompts.len()
            &&& forall|p: Prompt| #[trigger] r.contains(p) <==> prompts.contains(p)
            &&& forall|i: int, j: int|
                0 <= i < j < r.len() ==> (#[trigger] r[i]).sort_timestamp <= (
                #[trigger] r[j]).sort_timestamp && (r[i].sort_timestamp == r[j].sort_timestamp
                    ==> !precedes(r[j].sort_tiebreak@, r[i].sort_tiebreak@))
        }),
{
    let r = sorted_by(prompts, sent_before());
    lemma_sent_before();
    order::sorting_permutes(prompts, sent_before());
    order::sorting_orders(prompts, sent_before());
    assert forall|p: Prompt| #[trigger] r.contains(p) <==> prompts.contains(p) by {
        order::lemma_sorted_contains(prompts, sent_before(), p);
    }
    assert forall|i: int, j: int| 0 <= i < j < r.len() implies (#[trigger] r[i]).sort_timestamp <= (
    #[trigger] r[j]).sort_timestamp && (r[i].sort_timestamp == r[j].sort_timestamp ==> !precedes(
        r[j].sort_tiebreak@,
        r[i].sort_tiebreak@,
    )) by {
        assert(!sent_before()(r[j], r[i]));
    }
}

/// The order in time is a strict order.
pub proof fn lemma_sent_before()
    ensures
        order::weak_order(sent_before()),
{
    let lt = sent_before();
    assert forall|a: Prompt| !#[trigger] lt(a, a) by {
        text::precedes_irreflexive(a.sort_tiebreak@);
    }
    assert forall|a: Prompt, b: Prompt, c: Prompt|
        #![trigger lt(a, b), lt(b, c)]
        (lt(a, b) && lt(b, c) ==> lt(a, c)) && (!lt(a, b) && !lt(b, c) ==> !lt(a, c)) by {
        let x = a.sort_tiebreak@;
        let y = b.sort_tiebreak@;
        let z = c.sort_tiebreak@;
        if precedes(x, y) && precedes(y, z) {
            text::precedes_transitive(x, y, z);
        }
        text::precedes_total(x, y);
        text::precedes_total(y, z);
        if precedes(y, x) && precedes(x, z) {
            text::precedes_transitive(y, x, z);
        }
        if precedes(x, z) && precedes(z, y) {
            text::precedes_transitive(x, z, y);
        }
    }
}

fn is_sent_before(a: &Prompt, b: &Prompt) -> (o: bool)
    ensures
        o == sent_before()(*a, *b),
{
    let x: i128 = a.sort_timestamp;
    let y: i128 = b.sort_timestamp;
    x < y || (x == y && text::before(a.sort_tiebreak.as_str(), b.sort_tiebreak.as_str()))
}

/// The prompts in the order in which they were sent.
pub fn sort_prompts_chronologically(prompts: Vec<Prompt>) -> (r: Vec<Prompt>)
    ensures
        r@ == sorted_by(prompts@, sent_before()),
{
    order::sort(prompts, is_sent_before, Ghost(sent_before()))
}

// ---------------------------------------------------------------------------
// Extraction
// ---------------------------------------------------------------------------

/// What a provider knows of an entry that may be a prompt.
#[derive(Debug, Clone, Copy, PartialEq, Eq)]
pub struct PromptSemantics {
    /// Whether the entry is new, and not copied from another session.
    pub is_new: bool,
    /// Who wrote the prompt, where the entry is one.
    pub authorship: Option<PromptAuthorship>,
}

/// An entry that may be a prompt.
#[derive(Debug, Clone, PartialEq, Eq)]
pub struct PromptEntry {
    /// Whether it is a message of the user.
    pub is_user: bool,
    /// Whether it reads like a prompt that a person typed.
    pub is_human: bool,
    /// The text that the user sent, where there is any.
    pub text: Option<String>,
    /// Whether that text is a message of the system.
    pub is_noise: bool,
    /// When it was sent.
    pub timestamp: i128,
    /// What its provider knows of it.
    pub semantics: Option<PromptSemantics>,
}

/// A time as it is shown beside a prompt.
pub open spec fn shown_time(timestamp: i128) -> Option<Seq<char>> {
    shown(timestamp, "%Y-%m-%d %H:%M:%S UTC"@)
}

fn show_time(timestamp: i128) -> (r: Option<String>)
    ensures
        text_view(r) == shown_time(timestamp),
{
    time::show(timestamp, "%Y-%m-%d %H:%M:%S UTC")
}

/// The prompt is what an entry says: its text without surrounding white space.
pub open spec fn is_prompt_of(p: Prompt, entry: PromptEntry, timestamps: bool) -> bool {
    &&& entry.text is Some
    &&& p.text@ == trimmed(entry.text->0@)
    &&& text_view(p.timestamp) == (if timestamps {
        shown_time(entry.timestamp)
    } else {
        None
    })
    &&& p.session_id is None
    &&& p.project_path is None
    &&& p.provider is None
    &&& p.qualified_id is None
    &&& p.project_key is None
    &&& p.sort_timestamp == entry.timestamp
    &&& p.sort_tiebreak@.len() == 0
    &&& p.is_noise == entry.is_noise
}

/// The entry holds a prompt: it is the user's, has a text, and that text is long enough.
pub open spec fn holds_prompt(entry: PromptEntry, min_length: usize) -> bool {
    entry.is_user && entry.text is Some && trimmed(entry.text->0@).len() >= min_length
}

/// The prompt that an entry holds.
pub fn prompt_from_entry(entry: &PromptEntry, min_length: usize, timestamps: bool) -> (r: Option<
    Prompt,
>)
    ensures
        r is Some <==> holds_prompt(*entry, min_length),
        match r {
            Some(p) => is_prompt_of(p, *entry, timestamps),
            None => true,
        },
{
    if !entry.is_user {
        return None;
    }
    match &entry.text {
        None => None,
        Some(raw) => {
            let bare = text::trim(raw.as_str());
            if bare.as_str().unicode_len() < min_length {
                return None;
            }
            let stamp: Option<String> = if timestamps {
                show_time(entry.timestamp)
            } else {
                None
            };
            Some(
                Prompt {
                    text: bare,
                    timestamp: stamp,
                    session_id: None,
                    project_path: None,
                    provider: None,
                    qualified_id: None,
                    project_key: None,
                    sort_timestamp: entry.timestamp,
                    sort_tiebreak: String::new(),
                    is_noise: entry.is_noise,
                },
            )
        },
    }
}

/// An entry counts as a prompt. Where the provider annotates who wrote what, that decides; else
/// how the entry reads. Copies of entries of other sessions can be left out.
pub open spec fn counts_as_prompt(
    entry: PromptEntry,
    semantic_annotations: bool,
    new_activity_only: bool,
) -> bool {
    &&& new_activity_only && entry.semantics is Some ==> entry.semantics->0.is_new
    &&& if semantic_annotations {
        entry.semantics is Some && entry.semantics->0.authorship == Some(PromptAuthorship::Human)
    } else {
        entry.is_human
    }
}

/// The places of the entries that give prompts.
pub open spec fn prompt_places(
    entries: Seq<PromptEntry>,
    min_length: usize,
    semantic_annotations: bool,
    new_activity_only: bool,
) -> Seq<int>
    decreases entries.len(),
{
    if entries.len() == 0 {
        Seq::empty()
    } else {
        let before = prompt_places(
            entries.drop_last(),
            min_length,
            semantic_annotations,
            new_activity_only,
        );
        let last = entries.last();
        if counts_as_prompt(last, semantic_annotations, new_activity_only) && holds_prompt(
            last,
            min_length,
        ) {
            before.push(entries.len() - 1)
        } else {
            before
        }
    }
}

/// The prompts are those of the entries at the given places.
pub open spec fn are_prompts_at(
    prompts: Seq<Prompt>,
    entries: Seq<PromptEntry>,
    places: Seq<int>,
    timestamps: bool,
) -> bool {
    &&& prompts.len() == places.len()
    &&& forall|k: int|
        0 <= k < prompts.len() ==> is_prompt_of(
            #[trigger] prompts[k],
            entries[places[k]],
            timestamps,
        )
}

fn entry_counts(entry: &PromptEntry, semantic_annotations: bool, new_activity_only: bool) -> (r:
    bool)
    ensures
        r == counts_as_prompt(*entry, semantic_annotations, new_activity_only),
{
    match &entry.semantics {
        Some(semantics) => {
            if new_activity_only && !semantics.is_new {
                return false;
            }
            if semantic_annotations {
                match semantics.authorship {
                    Some(PromptAuthorship::Human) => true,
                    _ => false,
                }
            } else {
                entry.is_human
            }
        },
        None => !semantic_annotations && entry.is_human,
    }
}

/// The prompts of a session.
pub fn extract_prompts(
    entries: &Vec<PromptEntry>,
    min_length: usize,
    timestamps: bool,
    semantic_annotations: bool,
    new_activity_only: bool,
) -> (r: Vec<Prompt>)
    ensures
        are_prompts_at(
            r@,
            entries@,
            prompt_places(entries@, min_length, semantic_annotations, new_activity_only),
            timestamps,
        ),
{
    let mut out: Vec<Prompt> = Vec::new();
    let mut i: usize = 0;
    proof {
        assert(entries@.take(0) =~= Seq::empty());
    }
    while i < entries.len()
        invariant
            i <= entries@.len(),
            are_prompts_at(
                out@,
                entries@,
                prompt_places(
                    entries@.take(i as int),
                    min_length,
                    semantic_annotations,
                    new_activity_only,
                ),
                timestamps,
            ),
        decreases entries@.len() - i,
    {
        proof {
            let next = entries@.take(i + 1);
            assert(next.drop_last() =~= entries@.take(i as int));
            assert(next.last() == entries@[i as int]);
        }
        if entry_counts(&entries[i], semantic_annotations, new_activity_only) {
            match prompt_from_entry(&entries[i], min_length, timestamps) {
                Some(p) => {
                    out.push(p);
                },
                None => {},
            }
        }
        i = i + 1;
    }
    proof {
        assert(entries@.take(i as int) =~= entries@);
    }
    out
}

/// The prompts of a session of the session directory: the entries that read like a prompt.
pub fn extract_prompts_from_session(
    entries: &Vec<PromptEntry>,
    min_length: usize,
    timestamps: bool,
) -> (r: Vec<Prompt>)
    ensures
        are_prompts_at(
            r@,
            entries@,
            prompt_places(entries@, min_length, false, false),
            timestamps,
        ),
{
    extract_prompts(entries, min_length, timestamps, false, false)
}

/// An entry is a prompt of a person: sent by the user, with a text that is long enough without the
/// white space round it. Where the provider says who wrote what, it must say that a person wrote
/// it; else it must read like that. Where only new activity counts, it must not be marked as copied.
pub open spec fn is_from_person(
    entry: PromptEntry,
    min_length: usize,
    semantic_annotations: bool,
    new_activity_only: bool,
) -> bool {
    &&& entry.is_user
    &&& entry.text matches Some(t) && trimmed(t@).len() >= min_length
    &&& semantic_annotations ==> (entry.semantics matches Some(m) && m.authorship matches Some(a)
        && a is Human)
    &&& !semantic_annotations ==> entry.is_human
    &&& new_activity_only ==> (entry.semantics matches Some(m) ==> m.is_new)
}

/// The entries that give prompts are those of people, each once and in their order.
pub proof fn prompts_are_taken_from_people(
    entries: Seq<PromptEntry>,
    min_length: usize,
    semantic_annotations: bool,
    new_activity_only: bool,
)
    ensures
        ({
            let places = prompt_places(
                entries,
                min_length,
                semantic_annotations,
                new_activity_only,
            );
            &&& forall|i: int| #[trigger]
                places.contains(i) <==> 0 <= i < entries.len() && is_from_person(
                    entries[i],
                    min_length,
                    semantic_annotations,
                    new_activity_only,
                )
            &&& forall|j: int, k: int|
                0 <= j < k < places.len() ==> #[trigger] places[j] < #[trigger] places[k]
        }),
    decreases entries.len(),
{
    let places = prompt_places(entries, min_length, semantic_annotations, new_activity_only);
    if entries.len() > 0 {
        let front = entries.drop_last();
        let before = prompt_places(front, min_length, semantic_annotations, new_activity_only);
        prompts_are_taken_from_people(
            front,
            min_length,
            semantic_annotations,
            new_activity_only,
        );
        assert forall|k: int| 0 <= k < before.len() implies 0 <= #[trigger] before[k]
            < front.len() by {
            assert(before.contains(before[k]));
        }
        assert forall|i: int| #[trigger]
            places.contains(i) <==> 0 <= i < entries.len() && is_from_person(
                entries[i],
                min_length,
                semantic_annotations,
                new_activity_only,
            ) by {
            if 0 <= i < front.len() {
                assert(front[i] == entries[i]);
            }
            if before.contains(i) {
                let k = choose|k: int| 0 <= k < before.len() && before[k] == i;
                assert(places[k] == i);
            }
            if places.contains(i) {
                let k = choose|k: int| 0 <= k < places.len() && places[k] == i;
                if k < before.len() {
                    assert(before[k] == i);
                    assert(before.contains(i));
                }
            }
            if places.len() > before.len() {
                assert(places[before.len() as int] == entries.len() - 1);
            }
        }
        assert forall|j: int, k: int| 0 <= j < k < places.len() implies #[trigger] places[j]
            < #[trigger] places[k] by {
            assert(places[j] == before[j]);
            if k < before.len() {
                assert(places[k] == before[k]);
            }
        }
    }
}

/// Every prompt that is extracted stems from an entry of a person, with its text without the white
/// space round it and with its time, and every entry of a person gives such a prompt.
pub proof fn people_and_prompts_match(
    prompts: Seq<Prompt>,
    entries: Seq<PromptEntry>,
    min_length: usize,
    timestamps: bool,
    semantic_annotations: bool,
    new_activity_only: bool,
)
    requires
        are_prompts_at(
            prompts,
            entries,
            prompt_places(entries, min_length, semantic_annotations, new_activity_only),
            timestamps,
        ),
    ensures
        forall|k: int|
            0 <= k < prompts.len() ==> exists|i: int|
                0 <= i < entries.len() && is_from_person(
                    #[trigger] entries[i],
                    min_length,
                    semantic_annotations,
                    new_activity_only,
                ) && (#[trigger] prompts[k]).text@ == trimmed(entries[i].text->0@)
                    && prompts[k].sort_timestamp == entries[i].timestamp && prompts[k].is_noise
                    == entries[i].is_noise,
        forall|i: int|
            0 <= i < entries.len() && is_from_person(
                #[trigger] entries[i],
                min_length,
                semantic_annotations,
                new_activity_only,
            ) ==> exists|k: int|
                0 <= k < prompts.len() && (#[trigger] prompts[k]).text@ == trimmed(
                    entries[i].text->0@,
                ) && prompts[k].sort_timestamp == entries[i].timestamp && prompts[k].is_noise
                    == entries[i].is_noise,
{
    let places = prompt_places(entries, min_length, semantic_annotations, new_activity_only);
    prompts_are_taken_from_people(entries, min_length, semantic_annotations, new_activity_only);
    assert forall|k: int| 0 <= k < prompts.len() implies exists|i: int|
        0 <= i < entries.len() && is_from_person(
            #[trigger] entries[i],
            min_length,
            semantic_annotations,
            new_activity_only,
        ) && (#[trigger] prompts[k]).text@ == trimmed(entries[i].text->0@)
            && prompts[k].sort_timestamp == entries[i].timestamp && prompts[k].is_noise
            == entries[i].is_noise by {
        assert(places.contains(places[k]));
        let e = entries[places[k]];
        assert(is_prompt_of(prompts[k], e, timestamps));
    }
    assert forall|i: int|
        0 <= i < entries.len() && is_from_person(
            #[trigger] entries[i],
            min_length,
            semantic_annotations,
            new_activity_only,
        ) implies exists|k: int|
        0 <= k < prompts.len() && (#[trigger] prompts[k]).text@ == trimmed(entries[i].text->0@)
            && prompts[k].sort_timestamp == entries[i].timestamp && prompts[k].is_noise
            == entries[i].is_noise by {
        assert(places.contains(i));
        let k = choose|k: int| 0 <= k < places.len() && places[k] == i;
        assert(is_prompt_of(prompts[k], entries[places[k]], timestamps));
    }
}

// ---------------------------------------------------------------------------
// Gathering from several sessions
// ---------------------------------------------------------------------------

/// A prompt with the session that it came from written on it, or as it was.
pub open spec fn is_labelled(
    q: Prompt,
    p: Prompt,
    label: Option<(Seq<char>, Seq<char>)>,
) -> bool {
    &&& q.text == p.text
    &&& q.timestamp == p.timestamp
    &&& q.provider == p.provider
    &&& q.qualified_id == p.qualified_id
    &&& q.project_key == p.project_key
    &&& q.sort_timestamp == p.sort_timestamp
    &&& q.sort_tiebreak == p.sort_tiebreak
    &&& q.is_noise == p.is_noise
    &&& match label {
        Some((session, path)) => text_view(q.session_id) == Some(session) && text_view(
            q.project_path,
        ) == Some(path),
        None => q.session_id == p.session_id && q.project_path == p.project_path,
    }
}

/// Each prompt of a list with the session that it came from written on it.
pub open spec fn all_labelled(
    qs: Seq<Prompt>,
    ps: Seq<Prompt>,
    label: Option<(Seq<char>, Seq<char>)>,
) -> bool {
    &&& qs.len() == ps.len()
    &&& forall|k: int| 0 <= k < qs.len() ==> is_labelled(#[trigger] qs[k], ps[k], label)
}

/// What was gathered so far.
#[derive(Debug, Clone, PartialEq, Eq)]
pub struct Gathered {
    /// The prompts.
    pub prompts: Vec<Prompt>,
    /// The number of sessions that they came from.
    pub session_count: usize,
    /// Whether as many were gathered as are wanted.
    pub full: bool,
}

/// The session and the project path that are written on prompts.
pub open spec fn label_view(label: Option<(&str, &str)>) -> Option<(Seq<char>, Seq<char>)> {
    match label {
        Some((session, path)) => Some((session@, path@)),
        None => None,
    }
}

/// What one more session changes. A session without wanted prompts is not counted.
pub open spec fn adds_session(
    before: Gathered,
    after: Gathered,
    found: Seq<Prompt>,
    label: Option<(Seq<char>, Seq<char>)>,
    limit: Option<usize>,
) -> bool {
    if found.len() == 0 {
        after == before
    } else {
        &&& after.session_count == before.session_count + 1
        &&& exists|added: Seq<Prompt>| #[trigger]
            all_labelled(added, found, label) && after.prompts@ == (match limit {
                Some(n) => first_of_list(before.prompts@ + added, n as int),
                None => before.prompts@ + added,
            })
        &&& after.full == (before.full || (match limit {
            Some(n) => before.prompts@.len() + found.len() >= n,
            None => false,
        }))
    }
}

/// Adds what is wanted of the prompts of one session, up to a limit. A session without such
/// prompts is not counted.
pub fn gather_session(
    so_far: Gathered,
    found: Vec<Prompt>,
    label: Option<(&str, &str)>,
    limit: Option<usize>,
) -> (r: Gathered)
    requires
        so_far.session_count < usize::MAX,
    ensures
        adds_session(so_far, r, found@, label_view(label), limit),
{
    if found.len() == 0 {
        return so_far;
    }
    let ghost start = so_far.prompts@;
    let ghost source = found@;
    let ghost tag = label_view(label);
    let count: usize = so_far.session_count;
    let was_full: bool = so_far.full;
    let mut prompts = so_far.prompts;
    let ghost mut added: Seq<Prompt> = Seq::empty();
    proof {
        assert(start + added =~= start);
    }
    for p in it: found
        invariant
            it.seq() == source,
            added.len() == it.index(),
            forall|k: int| 0 <= k < added.len() ==> is_labelled(#[trigger] added[k], source[k], tag),
            prompts@ == start + added,
            tag == label_view(label),
    {
        let mut q = p;
        match label {
            Some((session, path)) => {
                q.session_id = Some(session.to_owned());
                q.project_path = Some(path.to_owned());
            },
            None => {},
        }
        proof {
            assert((start + added).push(q) =~= start + added.push(q));
            added = added.push(q);
        }
        prompts.push(q);
    }
    proof {
        assert(all_labelled(added, source, tag));
    }
    let total: usize = prompts.len();
    let full: bool = match limit {
        Some(n) => {
            if total > n {
                prompts.truncate(n);
            }
            total >= n
        },
        None => false,
    };
    Gathered { prompts, session_count: count + 1, full: was_full || full }
}

/// What is kept of the gathered prompts of several providers: with a limit, the first in time
/// up to it, and where each text is wanted once without those whose text came before.
pub open spec fn retained(
    prompts: Seq<Prompt>,
    limit: Option<usize>,
    unique: bool,
) -> Seq<Prompt> {
    match limit {
        Some(n) => {
            let sorted = sorted_by(prompts, sent_before());
            first_of_list(
                if unique {
                    deduped(sorted)
                } else {
                    sorted
                },
                n as int,
            )
        },
        None => prompts,
    }
}

/// What is kept of the gathered prompts.
pub fn retain_prompts(prompts: Vec<Prompt>, limit: Option<usize>, unique: bool) -> (r: Vec<Prompt>)
    ensures
        r@ == retained(prompts@, limit, unique),
{
    match limit {
        Some(n) => {
            let mut kept = sort_prompts_chronologically(prompts);
            if unique {
                kept = deduplicate_prompts(kept);
            }
            if n < kept.len() {
                kept.truncate(n);
            }
            kept
        },
        None => prompts,
    }
}

/// The first prompts of a list in which each text is left once.
spec fn first_distinct(prompts: Seq<Prompt>, n: int) -> Seq<Prompt> {
    first_of_list(deduped(prompts), n)
}

proof fn lemma_texts_push(prompts: Seq<Prompt>, p: Prompt, t: Seq<char>)
    ensures
        texts(prompts.push(p)).contains(t) <==> texts(prompts).contains(t) || t == p.text@,
{
    assert(texts(prompts.push(p)) =~= texts(prompts).push(p.text@));
    lemma_push_contains(texts(prompts), p.text@, t);
}

proof fn lemma_deduped_push(prompts: Seq<Prompt>, p: Prompt)
    ensures
        deduped(prompts.push(p)) == (if texts(prompts).contains(p.text@) {
            deduped(prompts)
        } else {
            deduped(prompts).push(p)
        }),
{
    assert(prompts.push(p).drop_last() =~= prompts);
}

proof fn lemma_placed_texts(prompts: Seq<Prompt>, x: Prompt, t: Seq<char>)
    ensures
        texts(placed(prompts, x, sent_before())).contains(t) <==> texts(prompts).contains(t) || t
            == x.text@,
    decreases prompts.len(),
{
    let lt = sent_before();
    if prompts.len() == 0 {
        assert(placed(prompts, x, lt) =~= prompts.push(x));
        lemma_texts_push(prompts, x, t);
    } else if lt(x, prompts.last()) {
        let front = prompts.drop_last();
        let y = prompts.last();
        lemma_placed_texts(front, x, t);
        lemma_texts_push(placed(front, x, lt), y, t);
        lemma_texts_push(front, y, t);
        assert(front.push(y) =~= prompts);
    } else {
        lemma_texts_push(prompts, x, t);
    }
}

proof fn lemma_distinct_grows(prompts: Seq<Prompt>, x: Prompt)
    ensures
        deduped(placed(prompts, x, sent_before())).len() == deduped(prompts).len() + (if texts(
            prompts,
        ).contains(x.text@) {
            0int
        } else {
            1
        }),
    decreases prompts.len(),
{
    let lt = sent_before();
    if prompts.len() == 0 {
        assert(placed(prompts, x, lt) =~= prompts.push(x));
        lemma_deduped_push(prompts, x);
    } else if lt(x, prompts.last()) {
        let front = prompts.drop_last();
        let y = prompts.last();
        lemma_distinct_grows(front, x);
        lemma_deduped_push(placed(front, x, lt), y);
        lemma_placed_texts(front, x, y.text@);
        lemma_texts_push(front, y, x.text@);
        assert(front.push(y) =~= prompts);
    } else {
        lemma_deduped_push(prompts, x);
    }
}

proof fn lemma_deduped_in_order(prompts: Seq<Prompt>)
    requires
        order::in_order(prompts, sent_before()),
    ensures
        order::in_order(deduped(prompts), sent_before()),
        deduped(prompts).len() <= prompts.len(),
        forall|k: int|
            0 <= k < deduped(prompts).len() ==> prompts.contains(#[trigger] deduped(prompts)[k]),
    decreases prompts.len(),
{
    let lt = sent_before();
    if prompts.len() > 0 {
        let front = prompts.drop_last();
        let last = prompts.last();
        assert forall|i: int, j: int| 0 <= i < j < front.len() implies !lt(
            #[trigger] front[j],
            #[trigger] front[i],
        ) by {
            assert(front[j] == prompts[j] && front[i] == prompts[i]);
        }
        lemma_deduped_in_order(front);
        let before = deduped(front);
        assert forall|k: int| 0 <= k < before.len() implies prompts.contains(
            #[trigger] before[k],
        ) && !lt(last, before[k]) by {
            let i = choose|i: int| 0 <= i < front.len() && front[i] == before[k];
            assert(prompts[i] == before[k]);
            assert(!lt(prompts[prompts.len() - 1], prompts[i]));
        }
        assert(prompts[prompts.len() - 1] == last);
    }
}

proof fn lemma_first_distinct_stays(prompts: Seq<Prompt>, n: int)
    requires
        0 <= n,
    ensures
        deduped(first_distinct(prompts, n)) == first_distinct(prompts, n),
{
    let all = deduped(prompts);
    let cut = first_distinct(prompts, n);
    deduped_texts(prompts);
    assert forall|i: int, j: int|
        0 <= i < texts(cut).len() && 0 <= j < texts(cut).len() && i != j implies texts(cut)[i]
        != texts(cut)[j] by {
        assert(cut[i] == all[i] && cut[j] == all[j]);
        assert(texts(all)[i] != texts(all)[j]);
    }
    lemma_distinct_stays(cut);
}

proof fn lemma_put_at_end(prompts: Seq<Prompt>, x: Prompt, n: int)
    requires
        0 <= n,
        order::in_order(prompts, sent_before()),
        prompts.len() > 0 ==> !sent_before()(x, prompts.last()),
    ensures
        first_distinct(placed(prompts, x, sent_before()), n) == first_distinct(
            placed(first_distinct(prompts, n), x, sent_before()),
            n,
        ),
{
    let lt = sent_before();
    let all = deduped(prompts);
    let cut = first_distinct(prompts, n);
    lemma_sent_before();
    lemma_deduped_in_order(prompts);
    lemma_first_distinct_stays(prompts, n);
    deduped_texts(prompts);
    assert(placed(prompts, x, lt) =~= prompts.push(x));
    if cut.len() > 0 {
        let e = cut.last();
        assert(e == all[cut.len() - 1]);
        let i = choose|i: int| 0 <= i < prompts.len() && prompts[i] == e;
        let last = prompts.last();
        if i < prompts.len() - 1 {
            assert(!lt(prompts[prompts.len() - 1], prompts[i]));
        }
        assert(!lt(last, e));
        assert(!lt(x, last));
        assert(!lt(x, e));
    }
    assert(placed(cut, x, lt) =~= cut.push(x));
    lemma_deduped_push(prompts, x);
    lemma_deduped_push(cut, x);
    if all.len() <= n {
        assert(cut =~= all);
        assert(texts(all).contains(x.text@) <==> texts(prompts).contains(x.text@));
    } else {
        assert(first_of_list(all.push(x), n) =~= cut);
        assert(first_of_list(cut.push(x), n) =~= cut);
        assert(first_of_list(cut, n) =~= cut);
    }
}

proof fn lemma_put_in(prompts: Seq<Prompt>, x: Prompt, n: int)
    requires
        0 <= n,
        order::in_order(prompts, sent_before()),
    ensures
        first_distinct(placed(prompts, x, sent_before()), n) == first_distinct(
            placed(first_distinct(prompts, n), x, sent_before()),
            n,
        ),
    decreases prompts.len(),
{
    let lt = sent_before();
    if prompts.len() == 0 || !lt(x, prompts.last()) {
        lemma_put_at_end(prompts, x, n);
    } else {
        let front = prompts.drop_last();
        let y = prompts.last();
        assert forall|i: int, j: int| 0 <= i < j < front.len() implies !lt(
            #[trigger] front[j],
            #[trigger] front[i],
        ) by {
            assert(front[j] == prompts[j] && front[i] == prompts[i]);
        }
        assert(front.push(y) =~= prompts);
        lemma_put_in(front, x, n);
        lemma_deduped_push(front, y);
        lemma_deduped_push(placed(front, x, lt), y);
        lemma_placed_texts(front, x, y.text@);
        lemma_distinct_grows(front, x);
        let all = deduped(front);
        let grown = deduped(placed(front, x, lt));
        if !texts(front).contains(y.text@) {
            if all.len() >= n {
                assert(first_of_list(all.push(y), n) =~= first_of_list(all, n));
                assert(first_of_list(grown.push(y), n) =~= first_of_list(grown, n));
            } else {
                assert(first_distinct(front, n) =~= all);
                assert(first_distinct(prompts, n) =~= all.push(y));
                assert(all.push(y).drop_last() =~= all);
                let other = deduped(placed(all, x, lt));
                deduped_texts(front);
                deduping_twice_changes_nothing(front);
                lemma_distinct_grows(all, x);
                assert(other =~= first_of_list(other, n));
                assert(grown =~= first_of_list(grown, n));
                assert(other == grown);
                lemma_deduped_push(placed(all, x, lt), y);
                lemma_placed_texts(all, x, y.text@);
            }
        }
    }
}

proof fn lemma_put_all_in(prompts: Seq<Prompt>, more: Seq<Prompt>, n: int)
    requires
        0 <= n,
        order::in_order(prompts, sent_before()),
    ensures
        order::in_order(all_placed(prompts, more, sent_before()), sent_before()),
        order::in_order(
            all_placed(first_distinct(prompts, n), more, sent_before()),
            sent_before(),
        ),
        first_distinct(all_placed(prompts, more, sent_before()), n) == first_distinct(
            all_placed(first_distinct(prompts, n), more, sent_before()),
            n,
        ),
    decreases more.len(),
{
    let lt = sent_before();
    let cut = first_distinct(prompts, n);
    lemma_sent_before();
    if more.len() == 0 {
        lemma_deduped_in_order(prompts);
        let all = deduped(prompts);
        assert forall|i: int, j: int| 0 <= i < j < cut.len() implies !lt(
            #[trigger] cut[j],
            #[trigger] cut[i],
        ) by {
            assert(cut[j] == all[j] && cut[i] == all[i]);
        }
        lemma_first_distinct_stays(prompts, n);
        assert(first_of_list(cut, n) =~= cut);
    } else {
        let front = more.drop_last();
        let x = more.last();
        lemma_put_all_in(prompts, front, n);
        let a = all_placed(prompts, front, lt);
        let b = all_placed(cut, front, lt);
        order::lemma_placed_in_order(a, x, lt);
        order::lemma_placed_in_order(b, x, lt);
        lemma_put_in(a, x, n);
        lemma_put_in(b, x, n);
    }
}

/// Cutting the gathered prompts to the limit after every session gives the same as cutting
/// them once at the end, also where each text is left once.
pub proof fn cutting_after_each_session_is_safe(
    before: Seq<Prompt>,
    more: Seq<Prompt>,
    limit: usize,
    unique: bool,
)
    ensures
        retained(retained(before, Some(limit), unique) + more, Some(limit), unique) == retained(
            before + more,
            Some(limit),
            unique,
        ),
{
    let lt = sent_before();
    lemma_sent_before();
    if unique {
        let n = limit as int;
        let sorted = sorted_by(before, lt);
        let cut = first_distinct(sorted, n);
        order::sorting_orders(before, lt);
        lemma_put_all_in(sorted, Seq::empty(), n);
        lemma_put_all_in(sorted, more, n);
        order::sorting_keeps_order(cut, lt);
        order::lemma_sorted_concat(before, more, lt);
        order::lemma_sorted_concat(cut, more, lt);
    } else {
        order::cutting_early_changes_nothing(before, more, lt, limit as int);
    }
}

/// Where a prompt of a provider's session came from, and what is written on it.
#[derive(Debug, Clone, PartialEq, Eq)]
pub struct ProviderSession {
    /// The qualified id of the session.
    pub qualified_id: String,
    /// Its provider.
    pub provider: String,
    /// The identity of its project.
    pub project_key: String,
    /// The name under which its project is shown.
    pub project_path: String,
    /// The qualified id of the session that its conversation began with.
    pub logical_root: String,
}

/// The tie breaker of a prompt: its session, and its place there in twenty digits.
pub open spec fn tiebreak(qualified_id: Seq<char>, index: nat) -> Seq<char> {
    qualified_id + ":"@ + text::zero_filled(index, 20)
}

/// A prompt with its tie breaker and, as far as the output shows it, its session written on it.
pub open spec fn is_stamped(
    q: Prompt,
    p: Prompt,
    session: ProviderSession,
    index: nat,
    shows_session: bool,
    use_json: bool,
) -> bool {
    &&& q.text == p.text
    &&& q.timestamp == p.timestamp
    &&& q.sort_timestamp == p.sort_timestamp
    &&& q.is_noise == p.is_noise
    &&& q.sort_tiebreak@ == tiebreak(session.qualified_id@, index)
    &&& if shows_session {
        text_view(q.session_id) == Some(session.qualified_id@) && text_view(q.project_path)
            == Some(session.project_path@)
    } else {
        q.session_id == p.session_id && q.project_path == p.project_path
    }
    &&& if use_json {
        text_view(q.provider) == Some(session.provider@) && text_view(q.qualified_id) == Some(
            session.qualified_id@,
        ) && text_view(q.project_key) == Some(session.project_key@)
    } else {
        q.provider == p.provider && q.qualified_id == p.qualified_id && q.project_key
            == p.project_key
    }
}

/// Each prompt of a session with its tie breaker and its session written on it.
pub open spec fn all_stamped(
    qs: Seq<Prompt>,
    ps: Seq<Prompt>,
    session: ProviderSession,
    shows_session: bool,
    use_json: bool,
) -> bool {
    &&& qs.len() == ps.len()
    &&& forall|k: int|
        0 <= k < qs.len() ==> is_stamped(
            #[trigger] qs[k],
            ps[k],
            session,
            k as nat,
            shows_session,
            use_json,
        )
}

fn stamp_prompts(
    found: Vec<Prompt>,
    session: &ProviderSession,
    shows_session: bool,
    use_json: bool,
) -> (r: Vec<Prompt>)
    ensures
        all_stamped(r@, found@, *session, shows_session, use_json),
{
    let ghost source = found@;
    let total: usize = found.len();
    let mut out: Vec<Prompt> = Vec::new();
    let mut index: usize = 0;
    for p in it: found
        invariant
            it.seq() == source,
            index == it.index(),
            index <= source.len(),
            source.len() == total,
            out@.len() == index,
            forall|k: int|
                0 <= k < out@.len() ==> is_stamped(
                    #[trigger] out@[k],
                    source[k],
                    *session,
                    k as nat,
                    shows_session,
                    use_json,
                ),
    {
        let mut q = p;
        let place = text::zero_fill(index as u64, 20);
        q.sort_tiebreak = text::cat3(session.qualified_id.as_str(), ":", place.as_str());
        if shows_session {
            q.session_id = Some(session.qualified_id.clone());
            q.project_path = Some(session.project_path.clone());
        }
        if use_json {
            q.provider = Some(session.provider.clone());
            q.qualified_id = Some(session.qualified_id.clone());
            q.project_key = Some(session.project_key.clone());
        }
        out.push(q);
        index = index + 1;
    }
    out
}

/// The set of names with the texts of a list put in.
pub open spec fn with_texts(set: Seq<Seq<char>>, list: Seq<Seq<char>>) -> Seq<Seq<char>>
    decreases list.len(),
{
    if list.len() == 0 {
        set
    } else {
        with_name(with_texts(set, list.drop_last()), list.last())
    }
}

/// What was gathered so far from the sessions of several providers.
#[derive(Debug, Clone, PartialEq, Eq)]
pub struct ProviderGathered {
    /// The prompts that are kept.
    pub prompts: Vec<Prompt>,
    /// The conversations that have prompts, in order and each once.
    pub roots: Vec<String>,
    /// The texts of all prompts, in order and each once, where those are counted.
    pub unique_texts: Vec<String>,
    /// The number of sessions that were looked at.
    pub sessions_analyzed: usize,
    /// The number of all prompts, at most the largest number there is.
    pub total_matching: usize,
}

/// How the prompts of several providers are gathered.
#[derive(Debug, Clone, Copy, PartialEq, Eq)]
pub struct GatherOptions {
    /// The most prompts that are kept.
    pub limit: Option<usize>,
    /// Each text is wanted once.
    pub unique: bool,
    /// The sessions are shown.
    pub shows_session: bool,
    /// The output is JSON.
    pub use_json: bool,
}

/// What one more session changes.
pub open spec fn gathers(
    before: ProviderGathered,
    after: ProviderGathered,
    found: Seq<Prompt>,
    session: ProviderSession,
    options: GatherOptions,
) -> bool {
    &&& after.sessions_analyzed == before.sessions_analyzed + 1
    &&& if found.len() == 0 {
        &&& after.prompts@ == before.prompts@
        &&& views(after.roots@) == views(before.roots@)
        &&& views(after.unique_texts@) == views(before.unique_texts@)
        &&& after.total_matching == before.total_matching
    } else {
        &&& exists|added: Seq<Prompt>| #[trigger]
            all_stamped(added, found, session, options.shows_session, options.use_json)
                && after.prompts@ == retained(
                before.prompts@ + added,
                options.limit,
                options.unique,
            )
        &&& views(after.roots@) == with_name(views(before.roots@), session.logical_root@)
        &&& views(after.unique_texts@) == (if options.unique {
            with_texts(views(before.unique_texts@), texts(found))
        } else {
            views(before.unique_texts@)
        })
        &&& after.total_matching == (if before.total_matching + found.len() <= usize::MAX {
            before.total_matching + found.len()
        } else {
            usize::MAX as int
        })
    }
}

/// Adds the wanted prompts of one session of a provider.
pub fn gather_provider_session(
    so_far: ProviderGathered,
    found: Vec<Prompt>,
    session: &ProviderSession,
    options: &GatherOptions,
) -> (r: ProviderGathered)
    requires
        so_far.sessions_analyzed < usize::MAX,
    ensures
        gathers(so_far, r, found@, *session, *options),
{
    let mut so_far = so_far;
    let ghost before = so_far;
    let analyzed: usize = so_far.sessions_analyzed + 1;
    if found.len() == 0 {
        so_far.sessions_analyzed = analyzed;
        return so_far;
    }
    let ghost source = found@;
    names::insert_name(&mut so_far.roots, session.logical_root.clone());
    let total: usize = so_far.total_matching.saturating_add(found.len());
    if options.unique {
        let mut i: usize = 0;
        proof {
            assert(texts(source).take(0) =~= Seq::empty());
        }
        while i < found.len()
            invariant
                found@ == source,
                i <= found@.len(),
                so_far.prompts == before.prompts,
                views(so_far.roots@) == with_name(views(before.roots@), session.logical_root@),
                so_far.total_matching == before.total_matching,
                views(so_far.unique_texts@) == with_texts(
                    views(before.unique_texts@),
                    texts(source).take(i as int),
                ),
            decreases found@.len() - i,
        {
            proof {
                let next = texts(source).take(i + 1);
                assert(next.drop_last() =~= texts(source).take(i as int));
                assert(next.last() == source[i as int].text@);
            }
            names::insert_name(&mut so_far.unique_texts, found[i].text.clone());
            i = i + 1;
        }
        proof {
            assert(texts(source).take(i as int) =~= texts(source));
        }
    }
    let mut stamped = stamp_prompts(found, session, options.shows_session, options.use_json);
    let ghost added = stamped@;
    let mut prompts = so_far.prompts;
    prompts.append(&mut stamped);
    proof {
        assert(all_stamped(added, source, *session, options.shows_session, options.use_json));
    }
    let kept = retain_prompts(prompts, options.limit, options.unique);
    ProviderGathered {
        prompts: kept,
        roots: so_far.roots,
        unique_texts: so_far.unique_texts,
        sessions_analyzed: analyzed,
        total_matching: total,
    }
}

// ---------------------------------------------------------------------------
// What a run does
// ---------------------------------------------------------------------------

/// The arguments of the command.
#[derive(Debug, Clone, PartialEq, Eq)]
pub struct PromptsArgs {
    /// The session whose prompts are wanted.
    pub session: Option<String>,
    /// The providers that are asked for.
    pub provider: Vec<String>,
    /// The prompts of all sessions are wanted.
    pub all: bool,
    /// Only sessions of this project.
    pub project: Option<String>,
    /// Only sessions after this date.
    pub since: Option<String>,
    /// Only sessions before this date.
    pub until: Option<String>,
    /// The least length of a prompt.
    pub min_length: usize,
    /// The most prompts.
    pub limit: Option<usize>,
    /// Spawned sessions too.
    pub subagents: bool,
    /// The file that is written.
    pub output_file: Option<String>,
    /// A heading for each session.
    pub separators: bool,
    /// The time of each prompt.
    pub timestamps: bool,
    /// A number before each prompt.
    pub numbered: bool,
    /// Only prompts that this expression finds.
    pub grep: Option<String>,
    /// Case makes no difference.
    pub ignore_case: bool,
    /// Only prompts that the expression does not find.
    pub invert_match: bool,
    /// No messages of the system.
    pub exclude_system: bool,
    /// How often each prompt was used.
    pub frequency: bool,
    /// Statistics.
    pub stats: bool,
    /// Each text once.
    pub unique: bool,
    /// The longest first.
    pub sort_by_length: bool,
    /// Only prompts that were used so often.
    pub min_count: Option<usize>,
    /// Long prompts are not cut.
    pub no_truncate: bool,
    /// How many prompts hold this phrase.
    pub contains: Option<String>,
}

/// Where the prompts are taken from.
#[derive(Debug, Clone, PartialEq, Eq)]
pub enum PromptsRoute {
    /// One session.
    Single(String),
    /// The sessions of the providers that are asked for.
    Providers,
    /// The sessions of the session directory.
    Sessions,
}

/// Where the prompts are taken from: the named session, else the named providers, else the
/// session directory. Without a session, a project or the word for all there is nothing to do.
pub fn run(args: &PromptsArgs) -> (r: Result<PromptsRoute, SnatchError>)
    ensures
        match args.session {
            Some(id) => r matches Ok(PromptsRoute::Single(s)) && s@ == id@,
            None => if !args.all && args.project is None {
                r matches Err(e) && e@ == invalid(
                    "session"@,
                    "Specify a session ID, use --all, or use -p/--project to filter"@,
                )
            } else if args.provider@.len() > 0 {
                r == Ok::<PromptsRoute, SnatchError>(PromptsRoute::Providers)
            } else {
                r == Ok::<PromptsRoute, SnatchError>(PromptsRoute::Sessions)
            },
        },
{
    if args.session.is_none() && !args.all && args.project.is_none() {
        return Err(
            invalid_argument(
                "session",
                "Specify a session ID, use --all, or use -p/--project to filter".to_owned(),
            ),
        );
    }
    match &args.session {
        Some(id) => Ok(PromptsRoute::Single(id.clone())),
        None => if args.provider.len() > 0 {
            Ok(PromptsRoute::Providers)
        } else {
            Ok(PromptsRoute::Sessions)
        },
    }
}

/// Whether the registry of providers is needed for a session: providers are asked for, or its
/// id has a colon.
pub fn session_needs_registry(args: &PromptsArgs, session_id: &str) -> (r: bool)
    ensures
        r == (args.provider@.len() > 0 || session_id@.contains(':')),
{
    args.provider.len() > 0 || text::contains_char(session_id, ':')
}

/// Whether a session is taken from the providers: they are asked for, or the registry that its
/// id called for takes the id for a qualified one.
pub fn session_uses_provider(args: &PromptsArgs, session_id: &str, looks_qualified: bool) -> (r:
    bool)
    ensures
        r == (args.provider@.len() > 0 || (session_id@.contains(':') && looks_qualified)),
{
    args.provider.len() > 0 || (text::contains_char(session_id, ':') && looks_qualified)
}

/// The flags that do not go with a single session of a provider.
pub open spec fn refused_flags(args: PromptsArgs) -> Seq<(Seq<char>, bool)> {
    seq![
        ("--all"@, args.all),
        ("--project"@, args.project is Some),
        ("--since"@, args.since is Some),
        ("--until"@, args.until is Some),
        ("--subagents"@, args.subagents),
        ("--separators"@, args.separators),
    ]
}

/// The flags that do not go with a single session of a provider, and whether they were given.
pub fn unsupported_flags(args: &PromptsArgs) -> (r: Vec<(String, bool)>)
    ensures
        flag_views(r@) == refused_flags(*args),
{
    let mut out: Vec<(String, bool)> = Vec::new();
    out.push(("--all".to_owned(), args.all));
    out.push(("--project".to_owned(), args.project.is_some()));
    out.push(("--since".to_owned(), args.since.is_some()));
    out.push(("--until".to_owned(), args.until.is_some()));
    out.push(("--subagents".to_owned(), args.subagents));
    out.push(("--separators".to_owned(), args.separators));
    proof {
        assert(flag_views(out@) =~= refused_flags(*args));
    }
    out
}

/// Whether a session is taken from the providers; refused where flags were given that do not go
/// with that.
pub fn route_session(args: &PromptsArgs, session_id: &str, looks_qualified: bool) -> (r: Result<
    bool,
    SnatchError,
>)
    ensures
        if !(args.provider@.len() > 0 || (session_id@.contains(':') && looks_qualified)) {
            r == Ok::<bool, SnatchError>(false)
        } else if given_flags(refused_flags(*args)).len() > 0 {
            r matches Err(e) && e@ == (ErrorView::UnsupportedFlags {
                route: "provider-routed single-session prompts"@,
                flags: given_flags(refused_flags(*args)),
            })
        } else {
            r == Ok::<bool, SnatchError>(true)
        },
{
    if !session_uses_provider(args, session_id, looks_qualified) {
        return Ok(false);
    }
    let flags = unsupported_flags(args);
    match helpers::refuse_unsupported_flags("provider-routed single-session prompts", &flags) {
        Ok(()) => Ok(true),
        Err(e) => Err(e),
    }
}

/// What is put out.
#[derive(Debug, Clone, PartialEq, Eq)]
pub enum OutputMode {
    /// Statistics.
    Stats,
    /// How often each prompt was used.
    Frequency,
    /// How many prompts hold a phrase.
    Contains(String),
    /// The prompts.
    List,
}

/// What is put out: statistics before frequency, frequency before a phrase, and the prompts
/// where none of these is asked for.
pub fn output_mode(args: &PromptsArgs) -> (r: OutputMode)
    ensures
        if args.stats {
            r is Stats
        } else if args.frequency {
            r is Frequency
        } else {
            match args.contains {
                Some(phrase) => r matches OutputMode::Contains(s) && s@ == phrase@,
                None => r is List,
            }
        },
{
    if args.stats {
        OutputMode::Stats
    } else if args.frequency {
        OutputMode::Frequency
    } else {
        match &args.contains {
            Some(phrase) => OutputMode::Contains(phrase.clone()),
            None => OutputMode::List,
        }
    }
}

/// The word for what was put out.
pub open spec fn mode_word(mode: OutputMode) -> Seq<char> {
    match mode {
        OutputMode::Stats => "stats"@,
        OutputMode::Frequency => "frequency data"@,
        OutputMode::Contains(_) => "phrase search results"@,
        OutputMode::List => "prompts"@,
    }
}

/// The line that reports a written file.
pub fn written_notice(mode: &OutputMode, session_count: Option<usize>, path: &str) -> (r: String)
    ensures
        r@ == "Wrote "@ + mode_word(*mode) + (match session_count {
            Some(n) => " from "@ + decimal(n as nat) + " sessions"@,
            None => Seq::empty(),
        }) + " to "@ + path@,
{
    let word: String = match mode {
        OutputMode::Stats => "stats".to_owned(),
        OutputMode::Frequency => "frequency data".to_owned(),
        OutputMode::Contains(_) => "phrase search results".to_owned(),
        OutputMode::List => "prompts".to_owned(),
    };
    let middle: String = match session_count {
        Some(n) => {
            let digits = text::size(n);
            text::cat3(" from ", digits.as_str(), " sessions")
        },
        None => String::new(),
    };
    text::cat5("Wrote ", word.as_str(), middle.as_str(), " to ", path)
}

/// The prompts that are listed: each text once where that is asked for, and no more than the
/// limit. Beside them the number before the limit.
pub fn finish_list(prompts: Vec<Prompt>, unique: bool, limit: Option<usize>) -> (r: (
    Vec<Prompt>,
    usize,
))
    ensures
        ({
            let all = if unique {
                deduped(prompts@)
            } else {
                prompts@
            };
            &&& r.0@ == (match limit {
                Some(n) => first_of_list(all, n as int),
                None => all,
            })
            &&& r.1 == all.len()
        }),
{
    let mut kept = if unique {
        deduplicate_prompts(prompts)
    } else {
        prompts
    };
    let total: usize = kept.len();
    match limit {
        Some(n) => {
            if n < kept.len() {
                kept.truncate(n);
            }
        },
        None => {},
    }
    (kept, total)
}

/// The sessions in the order in which they were modified, the oldest first.
pub open spec fn older_first() -> spec_fn(crate::model::Session, crate::model::Session) -> bool {
    |a: crate::model::Session, b: crate::model::Session| a.modified < b.modified
}

fn is_older(a: &crate::model::Session, b: &crate::model::Session) -> (o: bool)
    ensures
        o == older_first()(*a, *b),
{
    let x: i128 = a.modified;
    let y: i128 = b.modified;
    x < y
}

/// Of this project, where one is asked for.
pub open spec fn of_project(project: Option<String>) -> spec_fn(crate::model::Session) -> bool {
    |s: crate::model::Session|
        match project {
            Some(p) => has(s.project_path@, p@),
            None => true,
        }
}

/// The sessions of a project, the oldest first.
pub fn order_sessions(sessions: Vec<crate::model::Session>, project: &Option<String>) -> (r: Vec<
    crate::model::Session,
>)
    ensures
        r@ == sorted_by(sessions@.filter(of_project(*project)), older_first()),
{
    let belongs = |s: &crate::model::Session| -> (o: bool)
        ensures
            o == of_project(*project)(*s),
        {
            match project {
                Some(p) => text::contains(s.project_path.as_str(), p.as_str()),
                None => true,
            }
        };
    let kept = order::keep(sessions, belongs, Ghost(of_project(*project)));
    order::sort(kept, is_older, Ghost(older_first()))
}

// ---------------------------------------------------------------------------
// Output
// ---------------------------------------------------------------------------

/// A prompt on one line: cut where that is asked for, with its line feeds written out.
pub open spec fn on_one_line(s: Seq<char>, max_chars: int, no_truncate: bool) -> Seq<char> {
    replaced(
        if !no_truncate && s.len() > max_chars {
            display_cut(s, max_chars)
        } else {
            s
        },
        '\n',
        "\\n"@,
    )
}

fn to_one_line(s: &str, max_chars: usize, no_truncate: bool) -> (r: String)
    ensures
        r@ == on_one_line(s@, max_chars as int, no_truncate),
{
    if !no_truncate && s.unicode_len() > max_chars {
        let cut = truncate_prompt_display(s, max_chars);
        text::replace(cut.as_str(), '\n', "\\n")
    } else {
        text::replace(s, '\n', "\\n")
    }
}

/// The line of an entry of the frequency list; `share` is its part of all prompts in percent.
pub open spec fn frequency_line(
    entry: FrequencyEntry,
    share: Option<Seq<char>>,
    no_truncate: bool,
) -> Seq<char> {
    padded_left(decimal(entry.count as nat), 5) + "x"@ + (match share {
        Some(p) => " ("@ + p + "%)"@,
        None => Seq::empty(),
    }) + " "@ + on_one_line(entry.prompt@, 80, no_truncate)
}

/// What the frequency of prompts prints.
pub open spec fn frequency_lines(
    entries: Seq<FrequencyEntry>,
    shares: Seq<Option<String>>,
    total_prompts: usize,
    no_truncate: bool,
) -> Seq<Seq<char>> {
    seq![
        "Prompt Frequency Analysis"@,
        "========================="@,
        "Total prompts: "@ + decimal(total_prompts as nat),
        "Unique prompts: "@ + decimal(entries.len()),
        ""@,
    ] + Seq::new(
        entries.len(),
        |i: int| frequency_line(entries[i], text_view(shares[i]), no_truncate),
    )
}

fn render_frequency_line(entry: &FrequencyEntry, share: &Option<String>, no_truncate: bool) -> (r:
    String)
    ensures
        r@ == frequency_line(*entry, text_view(*share), no_truncate),
{
    let digits = text::size(entry.count);
    let count = text::pad_left(digits.as_str(), 5);
    let shown = to_one_line(entry.prompt.as_str(), 80, no_truncate);
    let part: String = match share {
        Some(p) => text::cat3(" (", p.as_str(), "%)"),
        None => String::new(),
    };
    text::cat5(count.as_str(), "x", part.as_str(), " ", shown.as_str())
}

/// What the frequency of prompts prints. `shares` gives for each entry its part of all prompts
/// in percent.
pub fn write_frequency_text(
    entries: &Vec<FrequencyEntry>,
    shares: &Vec<Option<String>>,
    total_prompts: usize,
    no_truncate: bool,
) -> (r: Vec<String>)
    requires
        shares@.len() == entries@.len(),
    ensures
        views(r@) == frequency_lines(entries@, shares@, total_prompts, no_truncate),
{
    let mut out: Vec<String> = Vec::new();
    let total = text::size(total_prompts);
    let unique = text::size(entries.len());
    text::say(&mut out, "Prompt Frequency Analysis");
    text::say(&mut out, "=========================");
    text::say2(&mut out, "Total prompts: ", total.as_str());
    text::say2(&mut out, "Unique prompts: ", unique.as_str());
    text::say(&mut out, "");
    let ghost head = seq![
        "Prompt Frequency Analysis"@,
        "========================="@,
        "Total prompts: "@ + decimal(total_prompts as nat),
        "Unique prompts: "@ + decimal(entries@.len()),
        ""@,
    ];
    let ghost all = Seq::new(
        entries@.len(),
        |i: int| frequency_line(entries@[i], text_view(shares@[i]), no_truncate),
    );
    let mut i: usize = 0;
    proof {
        assert(views(out@) =~= head + all.take(0));
    }
    while i < entries.len()
        invariant
            i <= entries@.len(),
            shares@.len() == entries@.len(),
            all == Seq::new(
                entries@.len(),
                |i: int| frequency_line(entries@[i], text_view(shares@[i]), no_truncate),
            ),
            views(out@) == head + all.take(i as int),
        decreases entries@.len() - i,
    {
        let line = render_frequency_line(&entries[i], &shares[i], no_truncate);
        text::say(&mut out, line.as_str());
        proof {
            assert(all.take(i + 1) =~= all.take(i as int).push(all[i as int]));
            assert(views(out@) =~= head + all.take(i + 1));
        }
        i = i + 1;
    }
    proof {
        assert(all.take(i as int) =~= all);
    }
    out
}

/// The numbers of the statistics that are no whole numbers, as they are shown.
#[derive(Debug, Clone, PartialEq, Eq)]
pub struct StatsShares {
    /// The texts that were used once, in percent.
    pub single_use: String,
    /// The average length.
    pub average: String,
    /// The prompts of each range of lengths, in percent.
    pub under_100: String,
    /// See [`LengthDistribution`].
    pub from_100_to_500: String,
    /// See [`LengthDistribution`].
    pub from_500_to_1000: String,
    /// See [`LengthDistribution`].
    pub from_1000_to_5000: String,
    /// See [`LengthDistribution`].
    pub over_5000: String,
}

/// The line of one range of lengths.
pub open spec fn range_line(label: Seq<char>, count: usize, share: Seq<char>) -> Seq<char> {
    label + padded_left(decimal(count as nat), 5) + " ("@ + padded_left(share, 5) + "%)"@
}

/// The lines of the prompts that were used most.
pub open spec fn top_lines(top: Seq<FrequencyEntry>, no_truncate: bool) -> Seq<Seq<char>> {
    Seq::new(
        top.len(),
        |i: int|
            "  "@ + decimal((i + 1) as nat) + ". "@ + decimal(top[i].count as nat) + "x: "@
                + on_one_line(top[i].prompt@, 60, no_truncate),
    )
}

/// What the statistics print.
pub open spec fn stats_lines(
    stats: PromptsStats,
    shares: StatsShares,
    session_count: Option<usize>,
    no_truncate: bool,
) -> Seq<Seq<char>> {
    seq!["Prompt Statistics"@, "================="@] + (match session_count {
        Some(n) => seq!["Sessions analyzed: "@ + decimal(n as nat)],
        None => Seq::empty(),
    }) + seq![
        ""@,
        "Counts:"@,
        "  Total prompts:      "@ + decimal(stats.total_prompts as nat),
        "  Unique prompts:     "@ + decimal(stats.unique_prompts as nat),
        "  Single-use:         "@ + decimal(stats.single_use_prompts as nat) + " ("@
            + shares.single_use@ + "%)"@,
        "  Reused:             "@ + decimal(stats.reused_prompts as nat),
        ""@,
        "Length (characters):"@,
        "  Total:              "@ + decimal(stats.total_characters as nat),
        "  Average:            "@ + shares.average@,
        "  Median:             "@ + decimal(stats.median_length as nat),
        "  Range:              "@ + decimal(stats.min_length as nat) + " - "@ + decimal(
            stats.max_length as nat,
        ),
    ] + (match stats.length_distribution {
        Some(d) => seq![
            ""@,
            "Length Distribution:"@,
            range_line("  <100 chars:         "@, d.under_100, shares.under_100@),
            range_line("  100-500:            "@, d.from_100_to_500, shares.from_100_to_500@),
            range_line("  500-1000:           "@, d.from_500_to_1000, shares.from_500_to_1000@),
            range_line("  1000-5000:          "@, d.from_1000_to_5000, shares.from_1000_to_5000@),
            range_line("  >5000:              "@, d.over_5000, shares.over_5000@),
        ],
        None => Seq::empty(),
    }) + seq![""@, "Top Prompts by Frequency:"@] + top_lines(stats.top_prompts@, no_truncate)
}

fn say_range(out: &mut Vec<String>, label: &str, count: usize, share: &str)
    ensures
        views(final(out)@) == views(old(out)@).push(range_line(label@, count, share@)),
{
    let digits = text::size(count);
    let left = text::pad_left(digits.as_str(), 5);
    let right = text::pad_left(share, 5);
    text::say5(out, label, left.as_str(), " (", right.as_str(), "%)");
}

fn say_number(out: &mut Vec<String>, label: &str, n: usize)
    ensures
        views(final(out)@) == views(old(out)@).push(label@ + decimal(n as nat)),
{
    let digits = text::size(n);
    text::say2(out, label, digits.as_str());
}

fn say_top(out: &mut Vec<String>, top: &Vec<FrequencyEntry>, no_truncate: bool)
    ensures
        views(final(out)@) == views(old(out)@) + top_lines(top@, no_truncate),
{
    let ghost start = views(out@);
    let ghost all = top_lines(top@, no_truncate);
    let total: usize = top.len();
    let mut i: usize = 0;
    proof {
        assert(start + all.take(0) =~= start);
    }
    while i < total
        invariant
            total == top@.len(),
            i <= total,
            all == top_lines(top@, no_truncate),
            views(out@) == start + all.take(i as int),
        decreases total - i,
    {
        let place = text::size(i + 1);
        let count = text::size(top[i].count);
        let shown = to_one_line(top[i].prompt.as_str(), 60, no_truncate);
        let head = text::cat4("  ", place.as_str(), ". ", count.as_str());
        text::say3(out, head.as_str(), "x: ", shown.as_str());
        proof {
            assert(all.take(i + 1) =~= all.take(i as int).push(all[i as int]));
            assert(views(out@) =~= start + all.take(i + 1));
        }
        i = i + 1;
    }
    proof {
        assert(all.take(i as int) =~= all);
    }
}

/// What the statistics print.
pub fn write_stats_text(
    stats: &PromptsStats,
    shares: &StatsShares,
    session_count: Option<usize>,
    no_truncate: bool,
) -> (r: Vec<String>)
    ensures
        views(r@) == stats_lines(*stats, *shares, session_count, no_truncate),
{
    let mut out: Vec<String> = Vec::new();
    text::say(&mut out, "Prompt Statistics");
    text::say(&mut out, "=================");
    match session_count {
        Some(n) => say_number(&mut out, "Sessions analyzed: ", n),
        None => {},
    }
    text::say(&mut out, "");
    text::say(&mut out, "Counts:");
    say_number(&mut out, "  Total prompts:      ", stats.total_prompts);
    say_number(&mut out, "  Unique prompts:     ", stats.unique_prompts);
    let single = text::size(stats.single_use_prompts);
    text::say5(
        &mut out,
        "  Single-use:         ",
        single.as_str(),
        " (",
        shares.single_use.as_str(),
        "%)",
    );
    say_number(&mut out, "  Reused:             ", stats.reused_prompts);
    text::say(&mut out, "");
    text::say(&mut out, "Length (characters):");
    let total_characters = text::large(stats.total_characters);
    text::say2(&mut out, "  Total:              ", total_characters.as_str());
    text::say2(&mut out, "  Average:            ", shares.average.as_str());
    say_number(&mut out, "  Median:             ", stats.median_length);
    let least = text::size(stats.min_length);
    let most = text::size(stats.max_length);
    text::say4(&mut out, "  Range:              ", least.as_str(), " - ", most.as_str());
    match &stats.length_distribution {
        Some(d) => {
            text::say(&mut out, "");
            text::say(&mut out, "Length Distribution:");
            say_range(&mut out, "  <100 chars:         ", d.under_100, shares.under_100.as_str());
            say_range(
                &mut out,
                "  100-500:            ",
                d.from_100_to_500,
                shares.from_100_to_500.as_str(),
            );
            say_range(
                &mut out,
                "  500-1000:           ",
                d.from_500_to_1000,
                shares.from_500_to_1000.as_str(),
            );
            say_range(
                &mut out,
                "  1000-5000:          ",
                d.from_1000_to_5000,
                shares.from_1000_to_5000.as_str(),
            );
            say_range(&mut out, "  >5000:              ", d.over_5000, shares.over_5000.as_str());
        },
        None => {},
    }
    text::say(&mut out, "");
    text::say(&mut out, "Top Prompts by Frequency:");
    say_top(&mut out, &stats.top_prompts, no_truncate);
    proof {
        assert(views(out@) =~= stats_lines(*stats, *shares, session_count, no_truncate));
    }
    out
}

/// What the search for a phrase prints; `share` is the part of all prompts in percent.
pub open spec fn contains_lines(
    phrase: Seq<char>,
    matching: usize,
    total: usize,
    share: Seq<char>,
    session_count: Option<usize>,
) -> Seq<Seq<char>> {
    seq!["Phrase Search Results"@, "====================="@] + (match session_count {
        Some(n) => seq!["Sessions analyzed: "@ + decimal(n as nat)],
        None => Seq::empty(),
    }) + seq![
        ""@,
        "Phrase: \""@ + phrase + "\""@,
        "Matching prompts: "@ + decimal(matching as nat) + " ("@ + share + "% of "@ + decimal(
            total as nat,
        ) + " total)"@,
    ]
}

/// What the search for a phrase prints.
pub fn write_contains_text(
    phrase: &str,
    matching: usize,
    total: usize,
    share: &str,
    session_count: Option<usize>,
) -> (r: Vec<String>)
    ensures
        views(r@) == contains_lines(phrase@, matching, total, share@, session_count),
{
    let mut out: Vec<String> = Vec::new();
    text::say(&mut out, "Phrase Search Results");
    text::say(&mut out, "=====================");
    match session_count {
        Some(n) => say_number(&mut out, "Sessions analyzed: ", n),
        None => {},
    }
    text::say(&mut out, "");
    text::say3(&mut out, "Phrase: \"", phrase, "\"");
    let found = text::size(matching);
    let all = text::size(total);
    let head = text::cat5("Matching prompts: ", found.as_str(), " (", share, "% of ");
    text::say3(&mut out, head.as_str(), all.as_str(), " total)");
    proof {
        assert(views(out@) =~= contains_lines(phrase@, matching, total, share@, session_count));
    }
    out
}

/// The lines of one prompt: its number and its time where they are asked for, and its text.
pub open spec fn prompt_lines(p: Prompt, index: int, numbered: bool) -> Seq<Seq<char>> {
    let head = if numbered {
        decimal((index + 1) as nat) + ". "@
    } else {
        Seq::empty()
    };
    match p.timestamp {
        Some(stamp) => seq![head + "["@ + stamp@ + "]"@, p.text@],
        None => seq![head + p.text@],
    }
}

/// The lines of the first `n` prompts, with a blank line between each two.
pub open spec fn list_lines(prompts: Seq<Prompt>, n: int, numbered: bool) -> Seq<Seq<char>>
    decreases n,
{
    if n <= 0 {
        Seq::empty()
    } else {
        list_lines(prompts, n - 1, numbered) + prompt_lines(prompts[n - 1], n - 1, numbered) + (
        if n - 1 < prompts.len() - 1 {
            seq![""@]
        } else {
            Seq::empty()
        })
    }
}

/// The heading of a session.
pub open spec fn session_heading(session_id: Seq<char>, project_path: Seq<char>) -> Seq<Seq<char>> {
    seq![""@, "# Session: "@ + id_head(session_id) + " ("@ + project_path + ")"@, ""@]
}

fn say_prompts(out: &mut Vec<String>, prompts: &Vec<Prompt>, numbered: bool)
    ensures
        views(final(out)@) == views(old(out)@) + list_lines(
            prompts@,
            prompts@.len() as int,
            numbered,
        ),
{
    let ghost start = views(out@);
    let total: usize = prompts.len();
    let mut i: usize = 0;
    proof {
        assert(start + Seq::empty() =~= start);
    }
    while i < total
        invariant
            total == prompts@.len(),
            i <= total,
            views(out@) == start + list_lines(prompts@, i as int, numbered),
        decreases total - i,
    {
        let p = &prompts[i];
        let head: String = if numbered {
            let place = text::size(i + 1);
            text::cat2(place.as_str(), ". ")
        } else {
            String::new()
        };
        match &p.timestamp {
            Some(stamp) => {
                text::say4(out, head.as_str(), "[", stamp.as_str(), "]");
                text::say(out, p.text.as_str());
            },
            None => {
                text::say2(out, head.as_str(), p.text.as_str());
            },
        }
        if i < total - 1 {
            text::say(out, "");
        }
        proof {
            assert(views(out@) =~= start + list_lines(prompts@, i + 1, numbered));
        }
        i = i + 1;
    }
}

/// The lines of a list of prompts, with the heading of their session where one is given.
pub fn write_prompts(prompts: &Vec<Prompt>, numbered: bool, session: Option<(&str, &str)>) -> (r:
    Vec<String>)
    requires
        session matches Some((id, _)) ==> has_short_id(id@),
    ensures
        views(r@) == (match session {
            Some((id, path)) => session_heading(id@, path@),
            None => Seq::empty(),
        }) + list_lines(prompts@, prompts@.len() as int, numbered),
{
    let mut out: Vec<String> = Vec::new();
    proof {
        assert(views(out@) =~= Seq::empty());
    }
    match session {
        Some((id, path)) => {
            let short = helpers::short_id(id);
            text::say(&mut out, "");
            text::say5(&mut out, "# Session: ", short.as_str(), " (", path, ")");
            text::say(&mut out, "");
            proof {
                assert(views(out@) =~= session_heading(id@, path@));
            }
        },
        None => {},
    }
    say_prompts(&mut out, prompts, numbered);
    out
}

/// The prompts in runs of the same session.
pub open spec fn session_runs(prompts: Seq<Prompt>) -> Seq<Seq<Prompt>>
    decreases prompts.len(),
{
    if prompts.len() == 0 {
        Seq::empty()
    } else {
        let before = session_runs(prompts.drop_last());
        let last = prompts.last();
        if before.len() > 0 && text_view(before.last()[0].session_id) == text_view(
            last.session_id,
        ) {
            before.drop_last().push(before.last().push(last))
        } else {
            before.push(seq![last])
        }
    }
}

/// The lines of a run of prompts of the same session: the heading of the session, where it is
/// known, and the prompts.
pub open spec fn run_lines(run: Seq<Prompt>, numbered: bool) -> Seq<Seq<char>> {
    (match run[0].session_id {
        Some(id) => session_heading(
            id@,
            match run[0].project_path {
                Some(path) => path@,
                None => Seq::empty(),
            },
        ),
        None => Seq::empty(),
    }) + list_lines(run, run.len() as int, numbered)
}

/// The lines of several runs, one after another.
pub open spec fn runs_lines(runs: Seq<Seq<Prompt>>, numbered: bool) -> Seq<Seq<char>>
    decreases runs.len(),
{
    if runs.len() == 0 {
        Seq::empty()
    } else {
        runs_lines(runs.drop_last(), numbered) + run_lines(runs.last(), numbered)
    }
}

/// Every session id can be shortened.
pub open spec fn ids_can_be_shown(prompts: Seq<Prompt>) -> bool {
    forall|i: int|
        0 <= i < prompts.len() ==> ((#[trigger] prompts[i]).session_id matches Some(id)
            ==> has_short_id(id@))
}

fn same_session(a: &Option<String>, b: &Option<String>) -> (r: bool)
    ensures
        r == (text_view(*a) == text_view(*b)),
{
    match (a, b) {
        (Some(x), Some(y)) => text::same(x.as_str(), y.as_str()),
        (None, None) => true,
        _ => false,
    }
}

fn say_run(out: &mut Vec<String>, run: &Vec<Prompt>, numbered: bool)
    requires
        run@.len() > 0,
        ids_can_be_shown(run@),
    ensures
        views(final(out)@) == views(old(out)@) + run_lines(run@, numbered),
{
    let ghost start = views(out@);
    let first = &run[0];
    proof {
        assert(run@[0].session_id matches Some(id) ==> has_short_id(id@));
    }
    match &first.session_id {
        Some(id) => {
            let path: String = match &first.project_path {
                Some(path) => path.clone(),
                None => String::new(),
            };
            let short = helpers::short_id(id.as_str());
            text::say(out, "");
            text::say5(out, "# Session: ", short.as_str(), " (", path.as_str(), ")");
            text::say(out, "");
            proof {
                let shown = match run@[0].project_path {
                    Some(p) => p@,
                    None => Seq::empty(),
                };
                assert(path@ =~= shown);
                assert(views(out@) =~= start + session_heading(id@, shown));
            }
        },
        None => {
            proof {
                assert(start + Seq::empty() =~= start);
            }
        },
    }
    say_prompts(out, run, numbered);
    proof {
        assert(views(out@) =~= start + run_lines(run@, numbered));
    }
}

/// The lines of the prompts of several sessions, with a heading wherever the session changes.
pub fn write_sessions(prompts: &Vec<Prompt>, numbered: bool) -> (r: Vec<String>)
    requires
        ids_can_be_shown(prompts@),
    ensures
        views(r@) == runs_lines(session_runs(prompts@), numbered),
{
    let mut out: Vec<String> = Vec::new();
    let mut run: Vec<Prompt> = Vec::new();
    let mut i: usize = 0;
    proof {
        assert(prompts@.take(0) =~= Seq::empty());
        assert(views(out@) =~= Seq::empty());
    }
    while i < prompts.len()
        invariant
            ids_can_be_shown(prompts@),
            ids_can_be_shown(run@),
            i <= prompts@.len(),
            i == 0 ==> run@.len() == 0 && views(out@).len() == 0,
            i > 0 ==> run@.len() > 0,
            ({
                let runs = session_runs(prompts@.take(i as int));
                &&& i == 0 ==> runs.len() == 0
                &&& i > 0 ==> runs.len() > 0 && runs.last() == run@ && views(out@) == runs_lines(
                    runs.drop_last(),
                    numbered,
                )
            }),
        decreases prompts@.len() - i,
    {
        let ghost runs = session_runs(prompts@.take(i as int));
        let ghost next = session_runs(prompts@.take(i + 1));
        let p = &prompts[i];
        proof {
            assert(prompts@.take(i + 1).drop_last() =~= prompts@.take(i as int));
            assert(prompts@.take(i + 1).last() == prompts@[i as int]);
        }
        if run.len() > 0 && same_session(&run[0].session_id, &p.session_id) {
            proof {
                assert(next == runs.drop_last().push(run@.push(*p)));
                assert(next.drop_last() =~= runs.drop_last());
            }
            run.push(p.copy());
        } else {
            if run.len() > 0 {
                say_run(&mut out, &run, numbered);
            }
            proof {
                assert(next == runs.push(seq![*p]));
                assert(next.drop_last() =~= runs);
                if i > 0 {
                    assert(views(out@) =~= runs_lines(runs, numbered));
                }
            }
            run = Vec::new();
            run.push(p.copy());
            proof {
                assert(run@ =~= seq![*p]);
                assert(views(out@) =~= runs_lines(runs, numbered));
            }
        }
        i = i + 1;
    }
    proof {
        assert(prompts@.take(i as int) =~= prompts@);
    }
    if run.len() > 0 {
        say_run(&mut out, &run, numbered);
    }
    proof {
        assert(views(out@) =~= runs_lines(session_runs(prompts@), numbered));
    }
    out
}

// ---------------------------------------------------------------------------
// What is said of the providers
// ---------------------------------------------------------------------------

/// What is said of a search through several providers.
#[derive(Debug, Clone, PartialEq, Eq)]
pub struct PromptCollectionMeta {
    /// The providers that were searched, in order.
    pub providers: Vec<String>,
    /// The number of sessions that were looked at.
    pub session_descriptors_analyzed: usize,
    /// The number of sessions whose times were guessed from their files.
    pub date_filter_fallback_descriptors: usize,
    /// The providers that were skipped.
    pub skipped_providers: Vec<SkippedProvider>,
    /// The warnings, in order and each once.
    pub warnings: Vec<String>,
}

/// The warning that the times of some sessions were guessed.
pub open spec fn fallback_warning(count: usize) -> Seq<char> {
    decimal(count as nat)
        + " session descriptors used conservative source-time evidence for date filtering"@
}

/// A provider of this name was skipped.
pub open spec fn was_skipped(skipped: Seq<SkippedProvider>, name: Seq<char>) -> bool {
    exists|i: int| 0 <= i < skipped.len() && (#[trigger] skipped[i]).provider@ == name
}

/// The providers that were not skipped.
pub open spec fn searched(skipped: Seq<SkippedProvider>) -> spec_fn(String) -> bool {
    |name: String| !was_skipped(skipped, name@)
}

fn is_skipped(skipped: &Vec<SkippedProvider>, name: &str) -> (r: bool)
    ensures
        r == was_skipped(skipped@, name@),
{
    let mut i: usize = 0;
    while i < skipped.len()
        invariant
            i <= skipped@.len(),
            forall|k: int| 0 <= k < i ==> (#[trigger] skipped@[k]).provider@ != name@,
        decreases skipped@.len() - i,
    {
        if text::same(skipped[i].provider.as_str(), name) {
            return true;
        }
        i = i + 1;
    }
    false
}

/// What is said of a search through several providers: those that were asked for, in order,
/// without those that were skipped; and all warnings, with one more where times were guessed.
pub fn collection_meta(
    asked: &Vec<String>,
    skipped: Vec<SkippedProvider>,
    warnings: Vec<String>,
    fallbacks: usize,
    analyzed: usize,
) -> (r: PromptCollectionMeta)
    ensures
        exists|ordered: Seq<String>|
            views(ordered) == name_set(views(asked@)) && r.providers@ == #[trigger] ordered.filter(
                searched(skipped@),
            ),
        r.session_descriptors_analyzed == analyzed,
        r.date_filter_fallback_descriptors == fallbacks,
        r.skipped_providers == skipped,
        views(r.warnings@) == name_set(
            if fallbacks > 0 {
                views(warnings@).push(fallback_warning(fallbacks))
            } else {
                views(warnings@)
            },
        ),
{
    let ordered = names::ordered_names(asked);
    let ghost all = ordered@;
    let stays = |name: &String| -> (o: bool)
        ensures
            o == searched(skipped@)(*name),
        { !is_skipped(&skipped, name.as_str()) };
    let providers = order::keep(ordered, stays, Ghost(searched(skipped@)));
    proof {
        assert(providers@ == all.filter(searched(skipped@)));
    }
    let mut warnings = warnings;
    if fallbacks > 0 {
        let digits = text::size(fallbacks);
        text::say2(
            &mut warnings,
            digits.as_str(),
            " session descriptors used conservative source-time evidence for date filtering",
        );
    }
    let warnings = names::ordered_names(&warnings);
    PromptCollectionMeta {
        providers,
        session_descriptors_analyzed: analyzed,
        date_filter_fallback_descriptors: fallbacks,
        skipped_providers: skipped,
        warnings,
    }
}

/// What is warned of behind the prompts of several providers.
pub open spec fn meta_warnings(meta: PromptCollectionMeta) -> Seq<Seq<char>> {
    meta.skipped_providers@.map_values(
        |s: SkippedProvider| "warning: provider '"@ + s.provider@ + "' skipped: "@ + s.reason@,
    ) + meta.warnings@.map_values(|w: String| "warning: "@ + w@)
}

/// What is warned of behind the prompts of several providers.
pub fn print_meta_warnings(meta: &PromptCollectionMeta) -> (r: Vec<String>)
    ensures
        views(r@) == meta_warnings(*meta),
{
    let mut out: Vec<String> = Vec::new();
    proof {
        assert(views(out@) =~= Seq::empty());
    }
    let skipped = |s: &SkippedProvider| -> (o: String)
        ensures
            o@ == "warning: provider '"@ + s.provider@ + "' skipped: "@ + s.reason@,
        {
            text::cat4(
                "warning: provider '",
                s.provider.as_str(),
                "' skipped: ",
                s.reason.as_str(),
            )
        };
    let ghost first = |s: SkippedProvider|
        "warning: provider '"@ + s.provider@ + "' skipped: "@ + s.reason@;
    text::say_each(&mut out, &meta.skipped_providers, skipped, Ghost(first));
    let warned = |w: &String| -> (o: String)
        ensures
            o@ == "warning: "@ + w@,
        { text::cat2("warning: ", w.as_str()) };
    let ghost second = |w: String| "warning: "@ + w@;
    text::say_each(&mut out, &meta.warnings, warned, Ghost(second));
    proof {
        assert(views(out@) =~= meta_warnings(*meta));
    }
    out
}

/// The number of prompts that a listing reports: of the distinct texts where each is listed once,
/// else of all.
pub fn standard_total_count(gathered: &ProviderGathered, unique: bool) -> (r: usize)
    ensures
        r == (if unique {
            gathered.unique_texts@.len()
        } else {
            gathered.total_matching as nat
        }),
{
    if unique {
        gathered.unique_texts.len()
    } else {
        gathered.total_matching
    }
}

// ---------------------------------------------------------------------------
// As JSON
// ---------------------------------------------------------------------------

/// The session that prompts were taken from, where one was asked for with its provider.
#[derive(Debug, Clone, PartialEq, Eq)]
pub struct PromptSource {
    /// The provider.
    pub provider: String,
    /// The id with the provider.
    pub qualified_id: String,
}

/// The fields of a session that was asked for with its provider.
pub open spec fn source_fields(source: Option<PromptSource>) -> Seq<(Seq<char>, JsonView)> {
    match source {
        Some(s) => seq![
            ("provider"@, JsonView::Text(s.provider@)),
            ("qualified_id"@, JsonView::Text(s.qualified_id@)),
        ],
        None => Seq::empty(),
    }
}

/// The fields of what a search of several providers rests on.
pub open spec fn meta_fields(meta: Option<PromptCollectionMeta>) -> Seq<(Seq<char>, JsonView)> {
    match meta {
        Some(m) => seq![
            (
                "session_descriptors_analyzed"@,
                number_json(m.session_descriptors_analyzed as nat),
            ),
            (
                "date_filter_fallback_descriptors"@,
                number_json(m.date_filter_fallback_descriptors as nat),
            ),
            ("providers"@, texts_json(views(m.providers@))),
            ("skipped_providers"@, skips_view(m.skipped_providers@)),
            ("warnings"@, texts_json(views(m.warnings@))),
        ],
        None => Seq::empty(),
    }
}

/// What stands behind the rest: the number of sessions, where they came from and what a search
/// rests on.
pub open spec fn origin_fields(
    session_count: Option<usize>,
    source: Option<PromptSource>,
    meta: Option<PromptCollectionMeta>,
) -> Seq<(Seq<char>, JsonView)> {
    given_size("session_count"@, session_count) + source_fields(source) + meta_fields(meta)
}

fn put_origin(
    fields: &mut Vec<(String, Json)>,
    session_count: Option<usize>,
    source: &Option<PromptSource>,
    meta: &Option<PromptCollectionMeta>,
)
    ensures
        fields_view(final(fields)@) == fields_view(old(fields)@) + origin_fields(
            session_count,
            *source,
            *meta,
        ),
{
    let ghost start = fields_view(fields@);
    json::put_given_size(fields, "session_count", session_count);
    let ghost counted = fields_view(fields@);
    match source {
        Some(s) => {
            json::put(fields, "provider", json::of_text(s.provider.as_str()));
            json::put(fields, "qualified_id", json::of_text(s.qualified_id.as_str()));
        },
        None => {},
    }
    proof {
        assert(fields_view(fields@) =~= counted + source_fields(*source));
    }
    let ghost named = fields_view(fields@);
    match meta {
        Some(m) => {
            json::put(
                fields,
                "session_descriptors_analyzed",
                json::of_size(m.session_descriptors_analyzed),
            );
            json::put(
                fields,
                "date_filter_fallback_descriptors",
                json::of_size(m.date_filter_fallback_descriptors),
            );
            json::put(fields, "providers", json::of_texts(&m.providers));
            json::put(fields, "skipped_providers", skips_json(&m.skipped_providers));
            json::put(fields, "warnings", json::of_texts(&m.warnings));
        },
        None => {},
    }
    proof {
        assert(fields_view(fields@) =~= named + meta_fields(*meta));
        assert(fields_view(fields@) =~= start + origin_fields(session_count, *source, *meta));
    }
}

/// The fields of a prompt.
pub open spec fn prompt_fields(p: Prompt) -> Seq<(Seq<char>, JsonView)> {
    seq![
        ("text"@, JsonView::Text(p.text@)),
    ] + given_text("timestamp"@, p.timestamp) + given_text("session_id"@, p.session_id) + given_text("project_path"@, p.project_path) + given_text("provider"@, p.provider) + given_text("qualified_id"@, p.qualified_id) + given_text("project_key"@, p.project_key)
}

fn prompt_json(p: &Prompt) -> (r: Json)
    ensures
        r@ == JsonView::Object(prompt_fields(*p)),
{
    let mut fields: Vec<(String, Json)> = Vec::new();
    let ghost before0 = fields_view(fields@);
    json::put(&mut fields, "text", json::of_text(p.text.as_str()));
    proof {
        assert(fields_view(fields@) =~= before0 + seq![
            ("text"@, JsonView::Text(p.text@)),
        ]);
    }
    json::put_given_text(&mut fields, "timestamp", &p.timestamp);
    json::put_given_text(&mut fields, "session_id", &p.session_id);
    json::put_given_text(&mut fields, "project_path", &p.project_path);
    json::put_given_text(&mut fields, "provider", &p.provider);
    json::put_given_text(&mut fields, "qualified_id", &p.qualified_id);
    json::put_given_text(&mut fields, "project_key", &p.project_key);
    proof {
        assert(fields_view(fields@) =~= prompt_fields(*p));
    }
    Json::Object(fields)
}

/// The fields of prompts.
pub open spec fn prompts_fields(
    prompts: Seq<Prompt>,
    total_count: usize,
    session_count: Option<usize>,
    source: Option<PromptSource>,
    meta: Option<PromptCollectionMeta>,
) -> Seq<(Seq<char>, JsonView)> {
    seq![
        (
            "prompts"@,
            JsonView::Array(prompts.map_values(|p: Prompt| JsonView::Object(prompt_fields(p)))),
        ),
        ("total_count"@, number_json(total_count as nat)),
    ] + origin_fields(session_count, source, meta)
}

/// Prompts as a JSON object.
pub fn prompts_json(
    prompts: &Vec<Prompt>,
    total_count: usize,
    session_count: Option<usize>,
    source: &Option<PromptSource>,
    meta: &Option<PromptCollectionMeta>,
) -> (r: Json)
    ensures
        r@ == JsonView::Object(prompts_fields(prompts@, total_count, session_count, *source, *meta)),
{
    let mut fields: Vec<(String, Json)> = Vec::new();
    let ghost g = |p: Prompt| JsonView::Object(prompt_fields(p));
    json::put(&mut fields, "prompts", json::of_list(prompts, prompt_json, Ghost(g)));
    json::put(&mut fields, "total_count", json::of_size(total_count));
    proof {
        assert(fields_view(fields@) =~= seq![
            ("prompts"@, JsonView::Array(prompts@.map_values(g))),
            ("total_count"@, number_json(total_count as nat)),
        ]);
    }
    put_origin(&mut fields, session_count, source, meta);
    Json::Object(fields)
}

/// The fields of a text and how often it was used. Its part of all prompts is a JSON number, and
/// is left out where there are no prompts.
pub open spec fn frequency_fields(e: FrequencyEntry, share: Option<String>) -> Seq<
    (Seq<char>, JsonView),
> {
    seq![("prompt"@, JsonView::Text(e.prompt@)), ("count"@, number_json(e.count as nat))] + (
    match share {
        Some(n) => seq![("percentage"@, JsonView::Number(n@))],
        None => Seq::empty(),
    })
}

fn frequency_entry_json(e: &FrequencyEntry, share: &Option<String>) -> (r: Json)
    ensures
        r@ == JsonView::Object(frequency_fields(*e, *share)),
{
    let mut fields: Vec<(String, Json)> = Vec::new();
    json::put(&mut fields, "prompt", json::of_text(e.prompt.as_str()));
    json::put(&mut fields, "count", json::of_size(e.count));
    match share {
        Some(n) => json::put(&mut fields, "percentage", Json::Number(n.clone())),
        None => {},
    }
    proof {
        assert(fields_view(fields@) =~= frequency_fields(*e, *share));
    }
    Json::Object(fields)
}

/// Texts and how often they were used, as a JSON list.
pub open spec fn frequencies_view(entries: Seq<FrequencyEntry>, shares: Seq<Option<String>>) -> JsonView {
    JsonView::Array(
        Seq::new(
            entries.len(),
            |i: int| JsonView::Object(frequency_fields(entries[i], shares[i])),
        ),
    )
}

fn frequencies_json(entries: &Vec<FrequencyEntry>, shares: &Vec<Option<String>>) -> (r: Json)
    requires
        shares@.len() == entries@.len(),
    ensures
        r@ == frequencies_view(entries@, shares@),
{
    let mut out: Vec<Json> = Vec::new();
    let mut i: usize = 0;
    while i < entries.len()
        invariant
            i <= entries@.len(),
            shares@.len() == entries@.len(),
            out@.len() == i,
            forall|k: int|
                0 <= k < i ==> (#[trigger] out@[k])@ == JsonView::Object(
                    frequency_fields(entries@[k], shares@[k]),
                ),
        decreases entries@.len() - i,
    {
        out.push(frequency_entry_json(&entries[i], &shares[i]));
        i = i + 1;
    }
    proof {
        json::lemma_items_view(out@);
        assert(json::items_view(out@) =~= Seq::new(
            entries@.len(),
            |i: int| JsonView::Object(frequency_fields(entries@[i], shares@[i])),
        ));
    }
    Json::Array(out)
}

/// The fields of how often texts were used.
pub open spec fn frequency_output_fields(
    entries: Seq<FrequencyEntry>,
    shares: Seq<Option<String>>,
    total_prompts: usize,
    session_count: Option<usize>,
    source: Option<PromptSource>,
    meta: Option<PromptCollectionMeta>,
) -> Seq<(Seq<char>, JsonView)> {
    seq![
        ("entries"@, frequencies_view(entries, shares)),
        ("total_prompts"@, number_json(total_prompts as nat)),
        ("unique_prompts"@, number_json(entries.len())),
    ] + origin_fields(session_count, source, meta)
}

/// How often texts were used, as a JSON object. `shares` gives for each its part of all prompts,
/// a JSON number.
pub fn frequency_json(
    entries: &Vec<FrequencyEntry>,
    shares: &Vec<Option<String>>,
    total_prompts: usize,
    session_count: Option<usize>,
    source: &Option<PromptSource>,
    meta: &Option<PromptCollectionMeta>,
) -> (r: Json)
    requires
        shares@.len() == entries@.len(),
    ensures
        r@ == JsonView::Object(frequency_output_fields(entries@, shares@, total_prompts, session_count, *source, *meta)),
{
    let mut fields: Vec<(String, Json)> = Vec::new();
    json::put(&mut fields, "entries", frequencies_json(entries, shares));
    json::put(&mut fields, "total_prompts", json::of_size(total_prompts));
    json::put(&mut fields, "unique_prompts", json::of_size(entries.len()));
    proof {
        assert(fields_view(fields@) =~= seq![
            ("entries"@, frequencies_view(entries@, shares@)),
            ("total_prompts"@, number_json(total_prompts as nat)),
            ("unique_prompts"@, number_json(entries@.len())),
        ]);
    }
    put_origin(&mut fields, session_count, source, meta);
    Json::Object(fields)
}

/// The fields of a range of lengths. Its part of all prompts is a JSON number.
pub open spec fn range_fields(count: usize, share: Seq<char>) -> Seq<(Seq<char>, JsonView)> {
    seq![("count"@, number_json(count as nat)), ("percentage"@, JsonView::Number(share))]
}

fn put_range(fields: &mut Vec<(String, Json)>, name: &str, count: usize, share: &String)
    ensures
        fields_view(final(fields)@) == fields_view(old(fields)@).push(
            (name@, JsonView::Object(range_fields(count, share@))),
        ),
{
    let mut own: Vec<(String, Json)> = Vec::new();
    json::put(&mut own, "count", json::of_size(count));
    json::put(&mut own, "percentage", Json::Number(share.clone()));
    proof {
        assert(fields_view(own@) =~= range_fields(count, share@));
    }
    json::put(fields, name, Json::Object(own));
}

/// The fields of the ranges of lengths, where there are prompts.
pub open spec fn distribution_fields(d: LengthDistribution, shares: StatsShares) -> Seq<
    (Seq<char>, JsonView),
> {
    seq![
        ("under_100"@, JsonView::Object(range_fields(d.under_100, shares.under_100@))),
        (
            "from_100_to_500"@,
            JsonView::Object(range_fields(d.from_100_to_500, shares.from_100_to_500@)),
        ),
        (
            "from_500_to_1000"@,
            JsonView::Object(range_fields(d.from_500_to_1000, shares.from_500_to_1000@)),
        ),
        (
            "from_1000_to_5000"@,
            JsonView::Object(range_fields(d.from_1000_to_5000, shares.from_1000_to_5000@)),
        ),
        ("over_5000"@, JsonView::Object(range_fields(d.over_5000, shares.over_5000@))),
    ]
}

fn distribution_json(d: &LengthDistribution, shares: &StatsShares) -> (r: Json)
    ensures
        r@ == JsonView::Object(distribution_fields(*d, *shares)),
{
    let mut fields: Vec<(String, Json)> = Vec::new();
    put_range(&mut fields, "under_100", d.under_100, &shares.under_100);
    put_range(&mut fields, "from_100_to_500", d.from_100_to_500, &shares.from_100_to_500);
    put_range(&mut fields, "from_500_to_1000", d.from_500_to_1000, &shares.from_500_to_1000);
    put_range(&mut fields, "from_1000_to_5000", d.from_1000_to_5000, &shares.from_1000_to_5000);
    put_range(&mut fields, "over_5000", d.over_5000, &shares.over_5000);
    proof {
        assert(fields_view(fields@) =~= distribution_fields(*d, *shares));
    }
    Json::Object(fields)
}

/// A field for the ranges of lengths, left out where there are no prompts.
pub open spec fn given_distribution(stats: PromptsStats, shares: StatsShares) -> Seq<
    (Seq<char>, JsonView),
> {
    match stats.length_distribution {
        Some(d) => seq![
            ("length_distribution"@, JsonView::Object(distribution_fields(d, shares))),
        ],
        None => Seq::empty(),
    }
}

/// The numbers of the statistics.
pub open spec fn number_fields(stats: PromptsStats, shares: StatsShares) -> Seq<
    (Seq<char>, JsonView),
> {
    seq![
        ("total_prompts"@, number_json(stats.total_prompts as nat)),
        ("unique_prompts"@, number_json(stats.unique_prompts as nat)),
        ("single_use_prompts"@, number_json(stats.single_use_prompts as nat)),
        ("single_use_percentage"@, JsonView::Number(shares.single_use@)),
        ("reused_prompts"@, number_json(stats.reused_prompts as nat)),
        ("total_characters"@, number_json(stats.total_characters as nat)),
        ("average_length"@, JsonView::Number(shares.average@)),
        ("median_length"@, number_json(stats.median_length as nat)),
        ("min_length"@, number_json(stats.min_length as nat)),
        ("max_length"@, number_json(stats.max_length as nat)),
    ]
}

/// The fields of the statistics.
pub open spec fn stats_fields(
    stats: PromptsStats,
    shares: StatsShares,
    tops: Seq<Option<String>>,
    session_count: Option<usize>,
    source: Option<PromptSource>,
    meta: Option<PromptCollectionMeta>,
) -> Seq<(Seq<char>, JsonView)> {
    number_fields(stats, shares) + given_distribution(stats, shares) + seq![
        ("top_prompts"@, frequencies_view(stats.top_prompts@, tops)),
    ] + origin_fields(session_count, source, meta)
}

/// The statistics as a JSON object. The parts in `shares` and `tops` are JSON numbers.
pub fn stats_json(
    stats: &PromptsStats,
    shares: &StatsShares,
    tops: &Vec<Option<String>>,
    session_count: Option<usize>,
    source: &Option<PromptSource>,
    meta: &Option<PromptCollectionMeta>,
) -> (r: Json)
    requires
        tops@.len() == stats.top_prompts@.len(),
    ensures
        r@ == JsonView::Object(stats_fields(*stats, *shares, tops@, session_count, *source, *meta)),
{
    let mut fields: Vec<(String, Json)> = Vec::new();
    json::put(&mut fields, "total_prompts", json::of_size(stats.total_prompts));
    json::put(&mut fields, "unique_prompts", json::of_size(stats.unique_prompts));
    json::put(&mut fields, "single_use_prompts", json::of_size(stats.single_use_prompts));
    json::put(&mut fields, "single_use_percentage", Json::Number(shares.single_use.clone()));
    json::put(&mut fields, "reused_prompts", json::of_size(stats.reused_prompts));
    json::put(&mut fields, "total_characters", json::of_large(stats.total_characters));
    json::put(&mut fields, "average_length", Json::Number(shares.average.clone()));
    json::put(&mut fields, "median_length", json::of_size(stats.median_length));
    json::put(&mut fields, "min_length", json::of_size(stats.min_length));
    json::put(&mut fields, "max_length", json::of_size(stats.max_length));
    proof {
        assert(fields_view(fields@) =~= number_fields(*stats, *shares));
    }
    match &stats.length_distribution {
        Some(d) => json::put(&mut fields, "length_distribution", distribution_json(d, shares)),
        None => {},
    }
    let ghost ranged = fields_view(fields@);
    proof {
        assert(ranged =~= number_fields(*stats, *shares) + given_distribution(*stats, *shares));
    }
    json::put(&mut fields, "top_prompts", frequencies_json(&stats.top_prompts, tops));
    proof {
        assert(fields_view(fields@) =~= ranged + seq![
            ("top_prompts"@, frequencies_view(stats.top_prompts@, tops@)),
        ]);
    }
    put_origin(&mut fields, session_count, source, meta);
    Json::Object(fields)
}

/// The fields of how many prompts hold a phrase.
pub open spec fn contains_fields(
    phrase: Seq<char>,
    matching: usize,
    total: usize,
    share: Seq<char>,
    session_count: Option<usize>,
    source: Option<PromptSource>,
    meta: Option<PromptCollectionMeta>,
) -> Seq<(Seq<char>, JsonView)> {
    seq![
        ("phrase"@, JsonView::Text(phrase)),
        ("matching_prompts"@, number_json(matching as nat)),
        ("total_prompts"@, number_json(total as nat)),
        ("percentage"@, JsonView::Number(share)),
    ] + origin_fields(session_count, source, meta)
}

/// How many prompts hold a phrase, as a JSON object. `share` is a JSON number.
pub fn contains_json(
    phrase: &str,
    matching: usize,
    total: usize,
    share: &str,
    session_count: Option<usize>,
    source: &Option<PromptSource>,
    meta: &Option<PromptCollectionMeta>,
) -> (r: Json)
    ensures
        r@ == JsonView::Object(contains_fields(phrase@, matching, total, share@, session_count, *source, *meta)),
{
    let mut fields: Vec<(String, Json)> = Vec::new();
    json::put(&mut fields, "phrase", json::of_text(phrase));
    json::put(&mut fields, "matching_prompts", json::of_size(matching));
    json::put(&mut fields, "total_prompts", json::of_size(total));
    json::put(&mut fields, "percentage", Json::Number(share.to_owned()));
    proof {
        assert(fields_view(fields@) =~= seq![
            ("phrase"@, JsonView::Text(phrase@)),
            ("matching_prompts"@, number_json(matching as nat)),
            ("total_prompts"@, number_json(total as nat)),
            ("percentage"@, JsonView::Number(share@)),
        ]);
    }
    put_origin(&mut fields, session_count, source, meta);
    Json::Object(fields)
}

// ---------------------------------------------------------------------------
// The whole output
// ---------------------------------------------------------------------------

/// What is told of prompts.
#[derive(Debug, Clone, PartialEq, Eq)]
pub enum PromptsDigest {
    /// The statistics.
    Stats(PromptsStats),
    /// How often texts were used.
    Frequency {
        /// The texts.
        entries: Vec<FrequencyEntry>,
        /// The number of prompts.
        total: usize,
    },
    /// How many prompts hold a phrase.
    Contains {
        /// The phrase.
        phrase: String,
        /// The number of prompts that hold it.
        matching: usize,
        /// The number of prompts.
        total: usize,
    },
    /// The prompts themselves.
    List {
        /// The prompts.
        prompts: Vec<Prompt>,
        /// Their number before any was cut off.
        total: usize,
    },
}

/// What is told of prompts: statistics first, then how often texts were used, then a phrase, else
/// the prompts themselves, each text once where that is asked for, up to the limit.
pub open spec fn is_digest_of(
    d: PromptsDigest,
    prompts: Seq<Prompt>,
    args: PromptsArgs,
    counted: Option<usize>,
) -> bool {
    if args.stats {
        d matches PromptsDigest::Stats(s) && are_stats_of(s, texts(prompts))
    } else if args.frequency {
        d matches PromptsDigest::Frequency { entries, total } && entry_views(entries@)
            == frequency_of(texts(prompts), args.min_count, args.sort_by_length) && total
            == prompts.len()
    } else {
        match args.contains {
            Some(asked) => d matches PromptsDigest::Contains { phrase, matching, total } && phrase@
                == asked@ && matching == prompts.filter(mentions(asked@, args.ignore_case)).len()
                && total == prompts.len(),
            None => d matches PromptsDigest::List { prompts: list, total } && ({
                let all = if args.unique {
                    deduped(prompts)
                } else {
                    prompts
                };
                &&& list@ == (match args.limit {
                    Some(n) => first_of_list(all, n as int),
                    None => all,
                })
                &&& total == (match counted {
                    Some(n) => n as nat,
                    None => all.len(),
                })
            }),
        }
    }
}

/// What is told of prompts. `counted` is the number of prompts where only some of them were kept.
pub fn digest_prompts(prompts: Vec<Prompt>, args: &PromptsArgs, counted: Option<usize>) -> (r:
    PromptsDigest)
    ensures
        is_digest_of(r, prompts@, *args, counted),
{
    match output_mode(args) {
        OutputMode::Stats => PromptsDigest::Stats(compute_stats(&prompts)),
        OutputMode::Frequency => {
            let total: usize = prompts.len();
            let entries = compute_frequency(&prompts, args.min_count, args.sort_by_length);
            PromptsDigest::Frequency { entries, total }
        },
        OutputMode::Contains(phrase) => {
            let total: usize = prompts.len();
            let matching = count_contains(&prompts, phrase.as_str(), args.ignore_case);
            PromptsDigest::Contains { phrase, matching, total }
        },
        OutputMode::List => {
            let (list, all) = finish_list(prompts, args.unique, args.limit);
            let total: usize = match counted {
                Some(n) => n,
                None => all,
            };
            PromptsDigest::List { prompts: list, total }
        },
    }
}

/// The numbers with a fraction that belong to what is told.
#[derive(Debug, Clone, PartialEq, Eq)]
pub struct PromptsFigures {
    /// Those of the statistics.
    pub stats: StatsShares,
    /// The parts of all prompts that the texts make up.
    pub shares: Vec<Option<String>>,
    /// The part of all prompts that hold a phrase.
    pub share: String,
}

/// There is a figure for each text.
pub open spec fn figures_fit(d: PromptsDigest, f: PromptsFigures) -> bool {
    match d {
        PromptsDigest::Stats(s) => f.shares@.len() == s.top_prompts@.len(),
        PromptsDigest::Frequency { entries, .. } => f.shares@.len() == entries@.len(),
        _ => true,
    }
}

/// How prompts are shown.
#[derive(Debug, Clone, Copy, PartialEq, Eq)]
pub struct PromptsLayout {
    /// As JSON.
    pub use_json: bool,
    /// With long texts as they are.
    pub no_truncate: bool,
    /// With numbers.
    pub numbered: bool,
    /// With a heading for each session.
    pub separators: bool,
}

/// What is told of prompts, ready to be written.
#[derive(Debug)]
pub enum PromptsShown {
    /// Lines for a reader.
    Lines(Vec<String>),
    /// A JSON value.
    Value(Json),
}

/// What is told of prompts, for a reader.
pub open spec fn digest_lines(
    d: PromptsDigest,
    f: PromptsFigures,
    layout: PromptsLayout,
    session_count: Option<usize>,
) -> Seq<Seq<char>> {
    match d {
        PromptsDigest::Stats(s) => stats_lines(s, f.stats, session_count, layout.no_truncate),
        PromptsDigest::Frequency { entries, total } => frequency_lines(
            entries@,
            f.shares@,
            total,
            layout.no_truncate,
        ),
        PromptsDigest::Contains { phrase, matching, total } => contains_lines(
            phrase@,
            matching,
            total,
            f.share@,
            session_count,
        ),
        PromptsDigest::List { prompts, .. } => if layout.separators {
            runs_lines(session_runs(prompts@), layout.numbered)
        } else {
            list_lines(prompts@, prompts@.len() as int, layout.numbered)
        },
    }
}

/// What is told of prompts, as fields.
pub open spec fn digest_fields(
    d: PromptsDigest,
    f: PromptsFigures,
    session_count: Option<usize>,
    source: Option<PromptSource>,
    meta: Option<PromptCollectionMeta>,
) -> Seq<(Seq<char>, JsonView)> {
    match d {
        PromptsDigest::Stats(s) => stats_fields(
            s,
            f.stats,
            f.shares@,
            session_count,
            source,
            meta,
        ),
        PromptsDigest::Frequency { entries, total } => frequency_output_fields(
            entries@,
            f.shares@,
            total,
            session_count,
            source,
            meta,
        ),
        PromptsDigest::Contains { phrase, matching, total } => contains_fields(
            phrase@,
            matching,
            total,
            f.share@,
            session_count,
            source,
            meta,
        ),
        PromptsDigest::List { prompts, total } => prompts_fields(
            prompts@,
            total,
            session_count,
            source,
            meta,
        ),
    }
}

/// Shows what is told of prompts, for a reader or as JSON.
pub fn show_digest(
    d: &PromptsDigest,
    f: &PromptsFigures,
    layout: PromptsLayout,
    session_count: Option<usize>,
    source: &Option<PromptSource>,
    meta: &Option<PromptCollectionMeta>,
) -> (r: PromptsShown)
    requires
        figures_fit(*d, *f),
        !layout.use_json && layout.separators ==> (d matches PromptsDigest::List { prompts, .. }
            ==> ids_can_be_shown(prompts@)),
    ensures
        if layout.use_json {
            r matches PromptsShown::Value(j) && j@ == JsonView::Object(
                digest_fields(*d, *f, session_count, *source, *meta),
            )
        } else {
            r matches PromptsShown::Lines(l) && views(l@) == digest_lines(
                *d,
                *f,
                layout,
                session_count,
            )
        },
{
    match d {
        PromptsDigest::Stats(s) => if layout.use_json {
            PromptsShown::Value(stats_json(s, &f.stats, &f.shares, session_count, source, meta))
        } else {
            PromptsShown::Lines(write_stats_text(s, &f.stats, session_count, layout.no_truncate))
        },
        PromptsDigest::Frequency { entries, total } => if layout.use_json {
            PromptsShown::Value(
                frequency_json(entries, &f.shares, *total, session_count, source, meta),
            )
        } else {
            PromptsShown::Lines(
                write_frequency_text(entries, &f.shares, *total, layout.no_truncate),
            )
        },
        PromptsDigest::Contains { phrase, matching, total } => if layout.use_json {
            PromptsShown::Value(
                contains_json(
                    phrase.as_str(),
                    *matching,
                    *total,
                    f.share.as_str(),
                    session_count,
                    source,
                    meta,
                ),
            )
        } else {
            PromptsShown::Lines(
                write_contains_text(
                    phrase.as_str(),
                    *matching,
                    *total,
                    f.share.as_str(),
                    session_count,
                ),
            )
        },
        PromptsDigest::List { prompts, total } => if layout.use_json {
            PromptsShown::Value(prompts_json(prompts, *total, session_count, source, meta))
        } else if layout.separators {
            PromptsShown::Lines(write_sessions(prompts, layout.numbered))
        } else {
            let lines = write_prompts(prompts, layout.numbered, None);
            proof {
                assert(views(lines@) =~= list_lines(
                    prompts@,
                    prompts@.len() as int,
                    layout.numbered,
                ));
            }
            PromptsShown::Lines(lines)
        },
    }
}

// ---------------------------------------------------------------------------
// All sessions
// ---------------------------------------------------------------------------

/// The prompts are what is wanted of the entries of a session.
pub open spec fn are_wanted_of(
    prompts: Seq<Prompt>,
    entries: Seq<PromptEntry>,
    args: PromptsArgs,
    regex: Option<GrepRegex>,
    semantic_annotations: bool,
    new_activity_only: bool,
) -> bool {
    exists|found: Seq<Prompt>|
        #[trigger] are_prompts_at(
            found,
            entries,
            prompt_places(entries, args.min_length, semantic_annotations, new_activity_only),
            args.timestamps,
        ) && prompts == wanted(found, args.exclude_system, regex, args.invert_match)
}

fn find_wanted(
    entries: &Vec<PromptEntry>,
    args: &PromptsArgs,
    regex: &Option<GrepRegex>,
    semantic_annotations: bool,
    new_activity_only: bool,
) -> (r: Vec<Prompt>)
    ensures
        are_wanted_of(
            r@,
            entries@,
            *args,
            *regex,
            semantic_annotations,
            new_activity_only,
        ),
{
    let found = extract_prompts(
        entries,
        args.min_length,
        args.timestamps,
        semantic_annotations,
        new_activity_only,
    );
    keep_wanted(found, args.exclude_system, regex, args.invert_match)
}

/// The prompts of one session that are wanted, copies of other sessions included.
pub fn extract_single_session(
    entries: &Vec<PromptEntry>,
    args: &PromptsArgs,
    regex: &Option<GrepRegex>,
    semantic_annotations: bool,
) -> (r: Vec<Prompt>)
    ensures
        are_wanted_of(r@, entries@, *args, *regex, semantic_annotations, false),
{
    find_wanted(entries, args, regex, semantic_annotations, false)
}

/// A session of the session directory and its entries, or why it could not be read.
#[derive(Debug, PartialEq, Eq)]
pub struct ReadSession {
    /// Its id.
    pub session_id: String,
    /// The path of its project.
    pub project_path: String,
    /// Its entries.
    pub entries: Result<Vec<PromptEntry>, String>,
}

/// What was gathered from sessions, and what was warned of.
#[derive(Debug, Clone, PartialEq, Eq)]
pub struct Reading {
    /// The prompts.
    pub gathered: Gathered,
    /// The sessions that could not be read.
    pub warnings: Vec<String>,
}

/// The warning for a session that could not be read.
pub open spec fn unread_warning(session_id: Seq<char>, reason: Seq<char>) -> Seq<char> {
    "Warning: Failed to extract from "@ + session_id + ": "@ + reason
}

/// What is written on the prompts of a session, where sessions are told apart.
pub open spec fn label_of(s: ReadSession, labelled: bool) -> Option<(Seq<char>, Seq<char>)> {
    if labelled {
        Some((s.session_id@, s.project_path@))
    } else {
        None
    }
}

/// What one more session changes: nothing once as many prompts were gathered as are wanted.
pub open spec fn reads_session(
    before: Reading,
    after: Reading,
    s: ReadSession,
    args: PromptsArgs,
    regex: Option<GrepRegex>,
    use_json: bool,
) -> bool {
    if before.gathered.full {
        after == before
    } else {
        match s.entries {
            Err(reason) => {
                &&& after.gathered == before.gathered
                &&& views(after.warnings@) == views(before.warnings@).push(
                    unread_warning(s.session_id@, reason@),
                )
            },
            Ok(entries) => {
                &&& after.warnings == before.warnings
                &&& exists|found: Seq<Prompt>|
                    #[trigger] are_wanted_of(found, entries@, args, regex, false, false)
                        && adds_session(
                        before.gathered,
                        after.gathered,
                        found,
                        label_of(s, args.separators || use_json),
                        args.limit,
                    )
            },
        }
    }
}

/// What was gathered from some sessions, read one after the other.
pub open spec fn reads_all(
    all: Reading,
    sessions: Seq<ReadSession>,
    args: PromptsArgs,
    regex: Option<GrepRegex>,
    use_json: bool,
) -> bool
    decreases sessions.len(),
{
    if sessions.len() == 0 {
        &&& all.gathered.prompts@.len() == 0
        &&& all.gathered.session_count == 0
        &&& !all.gathered.full
        &&& all.warnings@.len() == 0
    } else {
        exists|before: Reading|
            #[trigger] reads_session(before, all, sessions.last(), args, regex, use_json)
                && reads_all(before, sessions.drop_last(), args, regex, use_json)
    }
}

fn read_one(
    so_far: Reading,
    s: ReadSession,
    args: &PromptsArgs,
    regex: &Option<GrepRegex>,
    use_json: bool,
) -> (r: Reading)
    requires
        so_far.gathered.session_count < usize::MAX,
    ensures
        reads_session(so_far, r, s, *args, *regex, use_json),
        r.gathered.session_count <= so_far.gathered.session_count + 1,
{
    if so_far.gathered.full {
        return so_far;
    }
    match s.entries {
        Err(reason) => {
            let mut warnings = so_far.warnings;
            text::say4(
                &mut warnings,
                "Warning: Failed to extract from ",
                s.session_id.as_str(),
                ": ",
                reason.as_str(),
            );
            Reading { gathered: so_far.gathered, warnings }
        },
        Ok(entries) => {
            let found = find_wanted(&entries, args, regex, false, false);
            let label: Option<(&str, &str)> = if args.separators || use_json {
                Some((s.session_id.as_str(), s.project_path.as_str()))
            } else {
                None
            };
            let gathered = gather_session(so_far.gathered, found, label, args.limit);
            Reading { gathered, warnings: so_far.warnings }
        },
    }
}

/// The prompts of several sessions of the session directory, in their order. A session that
/// cannot be read is warned of; the rest is not read once there are as many prompts as are wanted.
pub fn extract_multiple_sessions(
    sessions: Vec<ReadSession>,
    args: &PromptsArgs,
    regex: &Option<GrepRegex>,
    use_json: bool,
) -> (r: Reading)
    ensures
        reads_all(r, sessions@, *args, *regex, use_json),
{
    let ghost source = sessions@;
    let count: usize = sessions.len();
    let mut all = Reading {
        gathered: Gathered { prompts: Vec::new(), session_count: 0, full: false },
        warnings: Vec::new(),
    };
    proof {
        assert(source.take(0) =~= Seq::empty());
    }
    for s in it: sessions
        invariant
            it.seq() == source,
            count == source.len(),
            reads_all(all, source.take(it.index() as int), *args, *regex, use_json),
            all.gathered.session_count <= it.index(),
    {
        let ghost k = it.index() as int;
        let ghost before = all;
        proof {
            assert(source.take(k + 1).drop_last() =~= source.take(k));
            assert(source.take(k + 1).last() == s);
        }
        all = read_one(all, s, args, regex, use_json);
        proof {
            assert(reads_session(
                before,
                all,
                source.take(k + 1).last(),
                *args,
                *regex,
                use_json,
            ));
            assert(reads_all(all, source.take(k + 1), *args, *regex, use_json));
        }
    }
    proof {
        assert(source.take(source.len() as int) =~= source);
    }
    all
}

/// A session of a provider and its entries.
#[derive(Debug, Clone, PartialEq, Eq)]
pub struct ReadProviderSession {
    /// The session.
    pub session: ProviderSession,
    /// When it took place.
    pub context: SessionProjectContext,
    /// Whether its provider says who wrote what.
    pub semantic_annotations: bool,
    /// Its entries.
    pub entries: Vec<PromptEntry>,
}

/// What was gathered from the sessions of providers.
#[derive(Debug, Clone, PartialEq, Eq)]
pub struct ProviderReading {
    /// The prompts.
    pub gathered: ProviderGathered,
    /// The sessions whose times were guessed, in order and each once.
    pub fallbacks: Vec<String>,
}

/// Each text is to be listed once.
pub open spec fn lists_once(args: PromptsArgs) -> bool {
    args.unique && !args.stats && !args.frequency && args.contains is None
}

/// How the prompts of several providers are gathered.
pub open spec fn gather_options(args: PromptsArgs, use_json: bool) -> GatherOptions {
    GatherOptions {
        limit: args.limit,
        unique: lists_once(args),
        shows_session: args.separators || use_json,
        use_json,
    }
}

/// What one more session of a provider changes: nothing where it cannot have taken place in the
/// span of time.
pub open spec fn reads_provider_session(
    before: ProviderReading,
    after: ProviderReading,
    s: ReadProviderSession,
    span: (Option<i128>, Option<i128>),
    args: PromptsArgs,
    regex: Option<GrepRegex>,
    use_json: bool,
) -> bool {
    if !may_overlap(s.context, span.0, span.1) {
        after == before
    } else {
        &&& views(after.fallbacks@) == (if used_fallback(s.context, span.0, span.1) {
            with_name(views(before.fallbacks@), s.session.qualified_id@)
        } else {
            views(before.fallbacks@)
        })
        &&& exists|found: Seq<Prompt>|
            #[trigger] are_wanted_of(found, s.entries@, args, regex, s.semantic_annotations, true)
                && gathers(
                before.gathered,
                after.gathered,
                found,
                s.session,
                gather_options(args, use_json),
            )
    }
}

/// What was gathered from some sessions of providers, read one after the other.
pub open spec fn reads_providers(
    all: ProviderReading,
    sessions: Seq<ReadProviderSession>,
    span: (Option<i128>, Option<i128>),
    args: PromptsArgs,
    regex: Option<GrepRegex>,
    use_json: bool,
) -> bool
    decreases sessions.len(),
{
    if sessions.len() == 0 {
        &&& all.gathered.prompts@.len() == 0
        &&& all.gathered.roots@.len() == 0
        &&& all.gathered.unique_texts@.len() == 0
        &&& all.gathered.sessions_analyzed == 0
        &&& all.gathered.total_matching == 0
        &&& all.fallbacks@.len() == 0
    } else {
        exists|before: ProviderReading|
            #[trigger] reads_provider_session(
                before,
                all,
                sessions.last(),
                span,
                args,
                regex,
                use_json,
            ) && reads_providers(before, sessions.drop_last(), span, args, regex, use_json)
    }
}

fn read_provider_one(
    so_far: ProviderReading,
    s: &ReadProviderSession,
    span: (Option<i128>, Option<i128>),
    args: &PromptsArgs,
    regex: &Option<GrepRegex>,
    use_json: bool,
) -> (r: ProviderReading)
    requires
        so_far.gathered.sessions_analyzed < usize::MAX,
    ensures
        reads_provider_session(so_far, r, *s, span, *args, *regex, use_json),
        r.gathered.sessions_analyzed <= so_far.gathered.sessions_analyzed + 1,
{
    let (include_it, guessed) = context_overlaps_date_range(&s.context, span.0, span.1);
    if !include_it {
        return so_far;
    }
    let mut fallbacks = so_far.fallbacks;
    if guessed {
        names::insert_name(&mut fallbacks, s.session.qualified_id.clone());
    }
    let found = find_wanted(&s.entries, args, regex, s.semantic_annotations, true);
    let options = GatherOptions {
        limit: args.limit,
        unique: args.unique && !args.stats && !args.frequency && args.contains.is_none(),
        shows_session: args.separators || use_json,
        use_json,
    };
    let gathered = gather_provider_session(so_far.gathered, found, &s.session, &options);
    ProviderReading { gathered, fallbacks }
}

/// The prompts of the sessions of several providers that may have taken place in a span of time,
/// in the order in which they were sent. Every session is read, whatever the limit: what is told
/// of all prompts stays exact.
pub fn extract_provider_multiple_sessions(
    sessions: &Vec<ReadProviderSession>,
    span: (Option<i128>, Option<i128>),
    args: &PromptsArgs,
    regex: &Option<GrepRegex>,
    use_json: bool,
) -> (r: ProviderReading)
    ensures
        exists|all: ProviderReading| #[trigger]
            reads_providers(all, sessions@, span, *args, *regex, use_json)
                && r.gathered.prompts@ == sorted_by(all.gathered.prompts@, sent_before())
                && r.gathered.roots == all.gathered.roots && r.gathered.unique_texts
                == all.gathered.unique_texts && r.gathered.sessions_analyzed
                == all.gathered.sessions_analyzed && r.gathered.total_matching
                == all.gathered.total_matching && r.fallbacks == all.fallbacks,
{
    let mut all = ProviderReading {
        gathered: ProviderGathered {
            prompts: Vec::new(),
            roots: Vec::new(),
            unique_texts: Vec::new(),
            sessions_analyzed: 0,
            total_matching: 0,
        },
        fallbacks: Vec::new(),
    };
    let mut i: usize = 0;
    proof {
        assert(sessions@.take(0) =~= Seq::empty());
    }
    while i < sessions.len()
        invariant
            i <= sessions@.len(),
            reads_providers(all, sessions@.take(i as int), span, *args, *regex, use_json),
            all.gathered.sessions_analyzed <= i,
        decreases sessions@.len() - i,
    {
        let ghost before = all;
        let ghost next = sessions@.take(i + 1);
        proof {
            assert(next.drop_last() =~= sessions@.take(i as int));
            assert(next.last() == sessions@[i as int]);
        }
        all = read_provider_one(all, &sessions[i], span, args, regex, use_json);
        proof {
            assert(reads_provider_session(
                before,
                all,
                next.last(),
                span,
                *args,
                *regex,
                use_json,
            ));
            assert(reads_providers(all, next, span, *args, *regex, use_json));
        }
        i = i + 1;
    }
    proof {
        assert(sessions@.take(i as int) =~= sessions@);
    }
    let mut gathered = all.gathered;
    gathered.prompts = sort_prompts_chronologically(gathered.prompts);
    ProviderReading { gathered, fallbacks: all.fallbacks }
}

/// The prompts say the same, one by one.
pub open spec fn alike(a: Seq<Prompt>, b: Seq<Prompt>) -> bool {
    &&& a.len() == b.len()
    &&& forall|i: int|
        #![trigger a[i]]
        #![trigger b[i]]
        0 <= i < a.len() ==> a[i].text@ == b[i].text@ && a[i].is_noise == b[i].is_noise
}

proof fn lemma_alike_filtered(a: Seq<Prompt>, b: Seq<Prompt>, keep: spec_fn(Prompt) -> bool)
    requires
        alike(a, b),
        forall|x: Prompt, y: Prompt|
            #![trigger keep(x), keep(y)]
            x.text@ == y.text@ && x.is_noise == y.is_noise ==> keep(x) == keep(y),
    ensures
        alike(a.filter(keep), b.filter(keep)),
    decreases a.len(),
{
    broadcast use Seq::lemma_filter_push;

    if a.len() > 0 {
        let x = a.last();
        let y = b.last();
        assert(a =~= a.drop_last().push(x));
        assert(b =~= b.drop_last().push(y));
        lemma_alike_filtered(a.drop_last(), b.drop_last(), keep);
        assert(keep(x) == keep(y));
    }
}

proof fn lemma_wanted_alike(
    a: Seq<Prompt>,
    b: Seq<Prompt>,
    entries: Seq<PromptEntry>,
    args: PromptsArgs,
    other: PromptsArgs,
    regex: Option<GrepRegex>,
    semantic_annotations: bool,
    new_activity_only: bool,
)
    requires
        are_wanted_of(a, entries, args, regex, semantic_annotations, new_activity_only),
        are_wanted_of(b, entries, other, regex, semantic_annotations, new_activity_only),
        args.min_length == other.min_length,
        args.timestamps == other.timestamps,
        args.exclude_system == other.exclude_system,
        args.invert_match == other.invert_match,
    ensures
        alike(a, b),
{
    let places = prompt_places(entries, args.min_length, semantic_annotations, new_activity_only);
    let x = choose|found: Seq<Prompt>|
        #[trigger] are_prompts_at(found, entries, places, args.timestamps) && a == wanted(
            found,
            args.exclude_system,
            regex,
            args.invert_match,
        );
    let y = choose|found: Seq<Prompt>|
        #[trigger] are_prompts_at(found, entries, places, args.timestamps) && b == wanted(
            found,
            args.exclude_system,
            regex,
            args.invert_match,
        );
    assert(alike(x, y));
    lemma_alike_filtered(x, y, is_typed());
    match regex {
        Some(g) => {
            lemma_alike_filtered(x, y, found_by(g, args.invert_match));
            lemma_alike_filtered(
                x.filter(is_typed()),
                y.filter(is_typed()),
                found_by(g, args.invert_match),
            );
        },
        None => {},
    }
}

/// The same is told of all prompts.
pub open spec fn same_counts(a: ProviderReading, b: ProviderReading) -> bool {
    &&& a.gathered.total_matching == b.gathered.total_matching
    &&& views(a.gathered.unique_texts@) == views(b.gathered.unique_texts@)
    &&& views(a.gathered.roots@) == views(b.gathered.roots@)
    &&& a.gathered.sessions_analyzed == b.gathered.sessions_analyzed
    &&& views(a.fallbacks@) == views(b.fallbacks@)
}

proof fn lemma_same_counts(
    before: ProviderReading,
    all: ProviderReading,
    less: ProviderReading,
    limited: ProviderReading,
    s: ReadProviderSession,
    span: (Option<i128>, Option<i128>),
    args: PromptsArgs,
    other: PromptsArgs,
    regex: Option<GrepRegex>,
    use_json: bool,
)
    requires
        other == (PromptsArgs { limit: other.limit, ..args }),
        same_counts(before, less),
        reads_provider_session(before, all, s, span, args, regex, use_json),
        reads_provider_session(less, limited, s, span, other, regex, use_json),
    ensures
        same_counts(all, limited),
{
    if may_overlap(s.context, span.0, span.1) {
        let a = choose|found: Seq<Prompt>|
            #[trigger] are_wanted_of(found, s.entries@, args, regex, s.semantic_annotations, true)
                && gathers(
                before.gathered,
                all.gathered,
                found,
                s.session,
                gather_options(args, use_json),
            );
        let b = choose|found: Seq<Prompt>|
            #[trigger] are_wanted_of(found, s.entries@, other, regex, s.semantic_annotations, true)
                && gathers(
                less.gathered,
                limited.gathered,
                found,
                s.session,
                gather_options(other, use_json),
            );
        lemma_wanted_alike(a, b, s.entries@, args, other, regex, s.semantic_annotations, true);
        assert(texts(a) =~= texts(b));
    }
}

proof fn lemma_read_before(
    all: ProviderReading,
    sessions: Seq<ReadProviderSession>,
    span: (Option<i128>, Option<i128>),
    args: PromptsArgs,
    regex: Option<GrepRegex>,
    use_json: bool,
) -> (before: ProviderReading)
    requires
        sessions.len() > 0,
        reads_providers(all, sessions, span, args, regex, use_json),
    ensures
        reads_provider_session(before, all, sessions.last(), span, args, regex, use_json),
        reads_providers(before, sessions.drop_last(), span, args, regex, use_json),
{
    choose|before: ProviderReading|
        #[trigger] reads_provider_session(
            before,
            all,
            sessions.last(),
            span,
            args,
            regex,
            use_json,
        ) && reads_providers(before, sessions.drop_last(), span, args, regex, use_json)
}

proof fn lemma_counts_of_none(
    all: ProviderReading,
    span: (Option<i128>, Option<i128>),
    args: PromptsArgs,
    regex: Option<GrepRegex>,
    use_json: bool,
)
    requires
        reads_providers(all, Seq::empty(), span, args, regex, use_json),
    ensures
        all.gathered.total_matching == 0,
        views(all.gathered.unique_texts@) == Seq::<Seq<char>>::empty(),
        views(all.gathered.roots@) == Seq::<Seq<char>>::empty(),
        all.gathered.sessions_analyzed == 0,
        views(all.fallbacks@) == Seq::<Seq<char>>::empty(),
{
}

/// A limit changes which prompts are kept, and nothing that is told of all of them: their number,
/// their distinct texts, the conversations and the sessions that were looked at stay exact.
pub proof fn limits_leave_counts_exact(
    all: ProviderReading,
    limited: ProviderReading,
    sessions: Seq<ReadProviderSession>,
    span: (Option<i128>, Option<i128>),
    args: PromptsArgs,
    limit: Option<usize>,
    regex: Option<GrepRegex>,
    use_json: bool,
)
    requires
        reads_providers(all, sessions, span, args, regex, use_json),
        reads_providers(
            limited,
            sessions,
            span,
            (PromptsArgs { limit, ..args }),
            regex,
            use_json,
        ),
    ensures
        same_counts(all, limited),
    decreases sessions.len(),
{
    let other = PromptsArgs { limit, ..args };
    if sessions.len() == 0 {
        assert(sessions =~= Seq::empty());
        lemma_counts_of_none(all, span, args, regex, use_json);
        lemma_counts_of_none(limited, span, other, regex, use_json);
    } else {
        let before = lemma_read_before(all, sessions, span, args, regex, use_json);
        let less = lemma_read_before(limited, sessions, span, other, regex, use_json);
        limits_leave_counts_exact(
            before,
            less,
            sessions.drop_last(),
            span,
            args,
            limit,
            regex,
            use_json,
        );
        lemma_same_counts(
            before,
            all,
            less,
            limited,
            sessions.last(),
            span,
            args,
            other,
            regex,
            use_json,
        );
    }
}

// ---------------------------------------------------------------------------
// What the numbers tell
// ---------------------------------------------------------------------------

proof fn lemma_in_range(list: Seq<Seq<char>>, low: int, high: Option<int>)
    ensures
        in_range(list, low, high) == list.filter(
            |t: Seq<char>| low <= t.len() && (high is Some ==> t.len() < high->0),
        ).len(),
    decreases list.len(),
{
    broadcast use Seq::lemma_filter_push;

    if list.len() > 0 {
        lemma_in_range(list.drop_last(), low, high);
        assert(list =~= list.drop_last().push(list.last()));
    }
}

proof fn lemma_lengths_sorted(list: Seq<Seq<char>>)
    ensures
        ascending(list).len() == list.len(),
        forall|i: int, j: int|
            0 <= i < j < list.len() ==> #[trigger] ascending(list)[i] <= #[trigger] ascending(list)[j],
        forall|n: int| #[trigger] ascending(list).contains(n) <==> lengths(list).contains(n),
{
    order::sorting_permutes(lengths(list), less());
    order::sorting_orders(lengths(list), less());
    assert forall|n: int| #[trigger] ascending(list).contains(n) <==> lengths(list).contains(n) by {
        order::lemma_sorted_contains(lengths(list), less(), n);
    }
    assert forall|i: int, j: int| 0 <= i < j < list.len() implies #[trigger] ascending(list)[i]
        <= #[trigger] ascending(list)[j] by {
        assert(!less()(ascending(list)[j], ascending(list)[i]));
    }
}

/// The statistics tell the prompts: how many there are and how many different ones, the shortest and
/// the longest length, and how many have fewer than a hundred characters, fewer than five hundred,
/// fewer than a thousand, fewer than five thousand, or no fewer.
pub proof fn statistics_tell_the_prompts(stats: PromptsStats, list: Seq<Seq<char>>)
    requires
        are_stats_of(stats, list),
    ensures
        stats.total_prompts == list.len(),
        stats.unique_prompts == list.to_set().len(),
        forall|i: int|
            0 <= i < list.len() ==> stats.min_length <= (#[trigger] list[i]).len()
                <= stats.max_length,
        list.len() > 0 ==> exists|i: int|
            0 <= i < list.len() && (#[trigger] list[i]).len() == stats.min_length,
        list.len() > 0 ==> exists|i: int|
            0 <= i < list.len() && (#[trigger] list[i]).len() == stats.max_length,
        list.len() == 0 ==> stats.min_length == 0 && stats.max_length == 0 && stats.median_length
            == 0,
        stats.length_distribution is Some <==> list.len() > 0,
        stats.length_distribution matches Some(d) ==> {
            &&& d.under_100 == list.filter(|t: Seq<char>| t.len() < 100).len()
            &&& d.from_100_to_500 == list.filter(|t: Seq<char>| 100 <= t.len() && t.len() < 500).len()
            &&& d.from_500_to_1000 == list.filter(
                |t: Seq<char>| 500 <= t.len() && t.len() < 1000,
            ).len()
            &&& d.from_1000_to_5000 == list.filter(
                |t: Seq<char>| 1000 <= t.len() && t.len() < 5000,
            ).len()
            &&& d.over_5000 == list.filter(|t: Seq<char>| 5000 <= t.len()).len()
        },
{
    let sorted = ascending(list);
    lemma_lengths_sorted(list);
    assert forall|i: int| 0 <= i < list.len() implies stats.min_length <= (#[trigger] list[i]).len()
        <= stats.max_length by {
        assert(lengths(list)[i] == list[i].len());
        assert(lengths(list).contains(list[i].len() as int));
        assert(sorted.contains(list[i].len() as int));
        let k = choose|k: int| 0 <= k < sorted.len() && sorted[k] == list[i].len();
        if k > 0 {
            assert(sorted[0] <= sorted[k]);
        }
        if k < sorted.len() - 1 {
            assert(sorted[k] <= sorted[sorted.len() - 1]);
        }
    }
    if list.len() > 0 {
        let last = sorted.len() - 1;
        assert(sorted.contains(sorted[0]) && sorted.contains(sorted[last]));
        assert(lengths(list).contains(sorted[0]) && lengths(list).contains(sorted[last]));
        let i = choose|i: int| 0 <= i < lengths(list).len() && lengths(list)[i] == sorted[0];
        assert(list[i].len() == stats.min_length);
        let j = choose|j: int| 0 <= j < lengths(list).len() && lengths(list)[j] == sorted[last];
        assert(list[j].len() == stats.max_length);
    }
    let set = name_set(list);
    names::name_set_holds(list);
    assert(set.no_duplicates()) by {
        assert forall|i: int, j: int| 0 <= i < set.len() && 0 <= j < set.len() && i != j implies set[i]
            != set[j] by {
            text::precedes_irreflexive(set[i]);
            if i < j {
                assert(precedes(set[i], set[j]));
            } else {
                assert(precedes(set[j], set[i]));
            }
        }
    }
    set.unique_seq_to_set();
    assert(set.to_set() =~= list.to_set()) by {
        assert forall|x: Seq<char>| set.to_set().contains(x) <==> list.to_set().contains(x) by {
            assert(set.contains(x) <==> list.contains(x));
        }
    }
    lemma_in_range(list, 0, Some(100));
    lemma_in_range(list, 100, Some(500));
    lemma_in_range(list, 500, Some(1000));
    lemma_in_range(list, 1000, Some(5000));
    lemma_in_range(list, 5000, None);
    assert((|t: Seq<char>| 0 <= t.len() && (Some(100int) is Some ==> t.len() < Some(100int)->0)) =~= (
    |t: Seq<char>| t.len() < 100));
    assert((|t: Seq<char>| 100 <= t.len() && (Some(500int) is Some ==> t.len() < Some(500int)->0))
        =~= (|t: Seq<char>| 100 <= t.len() && t.len() < 500));
    assert((|t: Seq<char>| 500 <= t.len() && (Some(1000int) is Some ==> t.len() < Some(1000int)->0))
        =~= (|t: Seq<char>| 500 <= t.len() && t.len() < 1000));
    assert((|t: Seq<char>|
        1000 <= t.len() && (Some(5000int) is Some ==> t.len() < Some(5000int)->0)) =~= (|t: Seq<char>|
        1000 <= t.len() && t.len() < 5000));
    assert((|t: Seq<char>|
        5000 <= t.len() && (None::<int> is Some ==> t.len() < None::<int>->0)) =~= (|t: Seq<char>|
        5000 <= t.len()));
}

/// The frequency names each text that was used often enough with how often it was used, and no
/// other; the most used stands first, or the longest where that is asked for, and of two alike the
/// text that comes first.
pub proof fn frequent_prompts_are_named(
    list: Seq<Seq<char>>,
    min_count: Option<usize>,
    sort_by_length: bool,
)
    ensures
        ({
            let r = frequency_of(list, min_count, sort_by_length);
            &&& forall|e: FrequencyView| #[trigger]
                r.contains(e) <==> list.contains(e.prompt) && e.count == count_of(list, e.prompt) && (
                min_count is Some ==> min_count->0 <= e.count)
            &&& forall|i: int, j: int|
                #![trigger r[i], r[j]]
                0 <= i < j < r.len() ==> if sort_by_length {
                    r[j].prompt.len() < r[i].prompt.len() || (r[j].prompt.len() == r[i].prompt.len()
                        && !precedes(r[j].prompt, r[i].prompt))
                } else {
                    r[j].count < r[i].count || (r[j].count == r[i].count && !precedes(
                        r[j].prompt,
                        r[i].prompt,
                    ))
                }
        }),
{
    let all = tallies(list);
    let kept = all.filter(used_at_least(min_count));
    let lt = if sort_by_length {
        longer()
    } else {
        more_used()
    };
    let r = frequency_of(list, min_count, sort_by_length);
    let set = name_set(list);
    names::name_set_holds(list);
    order::filtering_is_exact(all, used_at_least(min_count));
    assert forall|e: FrequencyView| #[trigger]
        r.contains(e) <==> list.contains(e.prompt) && e.count == count_of(list, e.prompt) && (
        min_count is Some ==> min_count->0 <= e.count) by {
        order::lemma_sorted_contains(kept, lt, e);
        assert(kept.contains(e) <==> all.contains(e) && used_at_least(min_count)(e));
        if all.contains(e) {
            let i = choose|i: int| 0 <= i < all.len() && all[i] == e;
            assert(set.contains(set[i]));
        }
        if list.contains(e.prompt) && e.count == count_of(list, e.prompt) {
            assert(set.contains(e.prompt));
            let i = choose|i: int| 0 <= i < set.len() && set[i] == e.prompt;
            assert(all[i] == e);
        }
    }
    lemma_frequency_orders();
    order::sorting_orders(kept, lt);
    assert forall|i: int, j: int|
        #![trigger r[i], r[j]]
        0 <= i < j < r.len() implies if sort_by_length {
        r[j].prompt.len() < r[i].prompt.len() || (r[j].prompt.len() == r[i].prompt.len()
            && !precedes(r[j].prompt, r[i].prompt))
    } else {
        r[j].count < r[i].count || (r[j].count == r[i].count && !precedes(r[j].prompt, r[i].prompt))
    } by {
        assert(!lt(r[j], r[i]));
    }
}

proof fn lemma_frequency_orders()
    ensures
        order::weak_order(longer()),
        order::weak_order(more_used()),
{
    assert forall|a: FrequencyView| !#[trigger] longer()(a, a) by {
        text::precedes_irreflexive(a.prompt);
    }
    assert forall|a: FrequencyView| !#[trigger] more_used()(a, a) by {
        text::precedes_irreflexive(a.prompt);
    }
    assert forall|a: FrequencyView, b: FrequencyView, c: FrequencyView|
        #![trigger longer()(a, b), longer()(b, c)]
        (longer()(a, b) && longer()(b, c) ==> longer()(a, c)) && (!longer()(a, b) && !longer()(b, c)
            ==> !longer()(a, c)) by {
        lemma_texts_in_order(a.prompt, b.prompt, c.prompt);
    }
    assert forall|a: FrequencyView, b: FrequencyView, c: FrequencyView|
        #![trigger more_used()(a, b), more_used()(b, c)]
        (more_used()(a, b) && more_used()(b, c) ==> more_used()(a, c)) && (!more_used()(a, b)
            && !more_used()(b, c) ==> !more_used()(a, c)) by {
        lemma_texts_in_order(a.prompt, b.prompt, c.prompt);
    }
}

proof fn lemma_texts_in_order(x: Seq<char>, y: Seq<char>, z: Seq<char>)
    ensures
        precedes(x, y) && precedes(y, z) ==> precedes(x, z),
        !precedes(x, y) && !precedes(y, z) ==> !precedes(x, z),
{
    if precedes(x, y) && precedes(y, z) {
        text::precedes_transitive(x, y, z);
    }
    text::precedes_total(x, y);
    text::precedes_total(y, z);
    if precedes(y, x) && precedes(x, z) {
        text::precedes_transitive(y, x, z);
    }
    if precedes(x, z) && precedes(z, y) {
        text::precedes_transitive(x, z, y);
    }
}

/// The sessions of the project that is asked for are read in the order in which they were modified,
/// the oldest first, and no others are.
pub proof fn oldest_sessions_are_read_first(
    sessions: Seq<crate::model::Session>,
    project: Option<String>,
)
    ensures
        ({
            let r = sorted_by(sessions.filter(of_project(project)), older_first());
            &&& forall|s: crate::model::Session| #[trigger]
                r.contains(s) <==> sessions.contains(s) && (project is Some ==> has(
                    s.project_path@,
                    project->0@,
                ))
            &&& forall|i: int, j: int|
                0 <= i < j < r.len() ==> (#[trigger] r[i]).modified <= (#[trigger] r[j]).modified
        }),
{
    let kept = sessions.filter(of_project(project));
    let r = sorted_by(kept, older_first());
    order::filtering_is_exact(sessions, of_project(project));
    order::sorting_orders(kept, older_first());
    assert forall|s: crate::model::Session| #[trigger]
        r.contains(s) <==> sessions.contains(s) && (project is Some ==> has(
            s.project_path@,
            project->0@,
        )) by {
        order::lemma_sorted_contains(kept, older_first(), s);
        assert(kept.contains(s) <==> sessions.contains(s) && of_project(project)(s));
    }
    assert forall|i: int, j: int| 0 <= i < j < r.len() implies (#[trigger] r[i]).modified <= (
    #[trigger] r[j]).modified by {
        assert(!older_first()(r[j], r[i]));
    }
}

/// Prompts of one session that were sent at once stand in the order in which the session has them.
pub proof fn prompts_of_a_session_keep_their_order(qualified_id: Seq<char>, i: nat, j: nat)
    requires
        i < j,
        decimal(j).len() <= 20,
    ensures
        precedes(tiebreak(qualified_id, i), tiebreak(qualified_id, j)),
{
    text::zeros_keep_the_order_of_numbers(i, j, 20);
    text::common_beginnings_keep_the_order(
        qualified_id + ":"@,
        text::zero_filled(i, 20),
        text::zero_filled(j, 20),
    );
}

// ---------------------------------------------------------------------------
// What calls hand back
// ---------------------------------------------------------------------------

/// A session that was named is looked at alone, whatever else was given. Without one, all
/// sessions or a project must be asked for, and providers answer if and only if one was named.
pub proof fn named_sessions_are_looked_at_alone(
    args: PromptsArgs,
    r: Result<PromptsRoute, SnatchError>,
)
    ensures
        call_ensures(run, (&args,), r) ==> {
            &&& r is Err <==> args.session is None && !args.all && args.project is None
            &&& (r matches Ok(route) && route is Single) <==> args.session is Some
            &&& r matches Ok(PromptsRoute::Single(s)) ==> s@ == args.session->0@
            &&& (r matches Ok(route) && route is Providers) <==> args.session is None && (args.all
                || args.project is Some) && args.provider@.len() > 0
        },
{
}

/// Statistics go before counts of prompts, these before phrases, and a list is what is left.
pub proof fn statistics_go_first(args: PromptsArgs, r: OutputMode)
    ensures
        call_ensures(output_mode, (&args,), r) ==> {
            &&& r is Stats <==> args.stats
            &&& r is Frequency <==> args.frequency && !args.stats
            &&& r is Contains <==> args.contains is Some && !args.frequency && !args.stats
            &&& r is List <==> args.contains is None && !args.frequency && !args.stats
            &&& r matches OutputMode::Contains(s) ==> s@ == args.contains->0@
        },
{
}

/// A list is the beginning of the prompts that were found, as long as the limit allows; its
/// total counts them all. Of equal texts, one is left if and only if that was asked for.
pub proof fn lists_begin_with_the_first(
    prompts: Vec<Prompt>,
    unique: bool,
    limit: Option<usize>,
    r: (Vec<Prompt>, usize),
)
    ensures
        call_ensures(finish_list, (prompts, unique, limit), r) ==> {
            &&& r.0@.len() <= r.1 <= prompts@.len()
            &&& limit is None ==> r.0@.len() == r.1
            &&& limit matches Some(n) ==> r.0@.len() == (if n < r.1 {
                n
            } else {
                r.1
            })
            &&& !unique ==> r.1 == prompts@.len() && r.0@ == prompts@.take(r.0@.len() as int)
            &&& unique ==> forall|i: int, j: int|
                0 <= i < j < r.0@.len() ==> (#[trigger] r.0@[i]).text@ != (
                #[trigger] r.0@[j]).text@
        },
{
    let all = deduped(prompts@);
    lemma_deduped_is_no_longer(prompts@);
    deduped_texts(prompts@);
    assert forall|i: int, j: int| 0 <= i < j < all.len() implies (#[trigger] all[i]).text@ != (
    #[trigger] all[j]).text@ by {
        assert(texts(all)[i] != texts(all)[j]);
    }
}

proof fn lemma_deduped_is_no_longer(prompts: Seq<Prompt>)
    ensures
        deduped(prompts).len() <= prompts.len(),
    decreases prompts.len(),
{
    if prompts.len() > 0 {
        lemma_deduped_is_no_longer(prompts.drop_last());
    }
}

/// The total counts distinct texts if and only if equal ones are left out.
pub proof fn totals_count_what_is_shown(gathered: ProviderGathered, r: usize, s: usize)
    ensures
        call_ensures(standard_total_count, (&gathered, true), r) ==> r
            == gathered.unique_texts@.len(),
        call_ensures(standard_total_count, (&gathered, false), s) ==> s == gathered.total_matching,
{
}

/// A session of a provider is read alone: whatever chooses among many, or sets them apart, is
/// refused. A session of the directory never is.
pub proof fn provider_sessions_are_read_alone(
    args: PromptsArgs,
    session_id: &str,
    looks_qualified: bool,
    r: Result<bool, SnatchError>,
)
    ensures
        call_ensures(route_session, (&args, session_id, looks_qualified), r) ==> {
            let there = args.provider@.len() > 0 || (session_id@.contains(':') && looks_qualified);
            let among_many = args.all || args.project is Some || args.since is Some
                || args.until is Some || args.subagents || args.separators;
            &&& r is Err <==> there && among_many
            &&& r matches Ok(from_provider) ==> from_provider == there
        },
{
    let flags = refused_flags(args);
    let given = given_flags(flags);
    helpers::given_flags_are_named(flags);
    assert(flags[0].1 == args.all && flags[1].1 == (args.project is Some) && flags[2].1 == (
    args.since is Some) && flags[3].1 == (args.until is Some) && flags[4].1 == args.subagents
        && flags[5].1 == args.separators);
    if exists|i: int| 0 <= i < 6 && (#[trigger] flags[i]).1 {
        let i = choose|i: int| 0 <= i < 6 && (#[trigger] flags[i]).1;
        assert(given.contains(flags[i].0));
    }
    if given.len() > 0 {
        assert(given.contains(given[0]));
    }
}

} // verus!
