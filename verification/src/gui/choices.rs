//! Dropdown choices of the editors: how they stand for ids, types and sources.

use vstd::prelude::*;
use crate::entry::LogSourceId;
use crate::session::{Session, SessionView};
use crate::{filter, path, text};

verus! {

/// Position of the first element equal to a pair, or the number of elements.
pub open spec fn pair_index(list: Seq<(u8, u8)>, pair: (u8, u8)) -> int
    decreases list.len(),
{
    if list.len() == 0 || list[0] == pair {
        0
    } else {
        1 + pair_index(list.drop_first(), pair)
    }
}

/// Position of the first name equal to `name` in any case, or the number of
/// names.
pub open spec fn name_index(list: Seq<Seq<char>>, name: Seq<char>) -> int
    decreases list.len(),
{
    if list.len() == 0 || text::same_ignoring_case(list[0], name) {
        0
    } else {
        1 + name_index(list.drop_first(), name)
    }
}

/// The id choice that stands for a pair of ids: 0 is any, the rest are 1 + the
/// position of the pair among the options.
pub open spec fn id_choice(options: Seq<(u8, u8)>, sysid: Option<u8>, compid: Option<u8>) -> int {
    match (sysid, compid) {
        (Some(s), Some(c)) => if pair_index(options, (s, c)) < options.len() {
            pair_index(options, (s, c)) + 1
        } else {
            0
        },
        _ => 0,
    }
}

/// The ids that a choice stands for.
pub open spec fn ids_chosen(options: Seq<(u8, u8)>, choice: int) -> (Option<u8>, Option<u8>) {
    if choice == 0 {
        (None, None)
    } else {
        (Some(options[choice - 1].0), Some(options[choice - 1].1))
    }
}

/// The source that a choice stands for: 0 is any, 1 the primary and 2 the
/// secondary log.
pub open spec fn source_chosen(choice: int) -> Option<LogSourceId> {
    if choice == 1 {
        Some(LogSourceId::Primary)
    } else if choice == 2 {
        Some(LogSourceId::Secondary)
    } else {
        None
    }
}

/// Position of a pair, or the number of options.
fn find_pair(list: &[(u8, u8)], pair: (u8, u8)) -> (n: usize)
    ensures
        n == pair_index(list@, pair),
        n <= list@.len(),
{
    let mut i: usize = 0;
    assert(list@.skip(0) =~= list@);
    while i < list.len()
        invariant
            i <= list.len(),
            pair_index(list@, pair) == i + pair_index(list@.skip(i as int), pair),
        decreases list.len() - i,
    {
        if list[i].0 == pair.0 && list[i].1 == pair.1 {
            assert(list@[i as int] == pair);
            return i;
        }
        assert(list@.skip(i as int).drop_first() =~= list@.skip(i + 1));
        i += 1;
    }
    i
}

/// Position of a name in any case, or the number of names.
pub fn find_name(list: &[String], name: &str) -> (n: usize)
    ensures
        n == name_index(text::views(list@), name@),
        n <= list@.len(),
{
    let ghost all = text::views(list@);
    let mut i: usize = 0;
    assert(all.skip(0) =~= all);
    while i < list.len()
        invariant
            i <= list.len(),
            all == text::views(list@),
            name_index(all, name@) == i + name_index(all.skip(i as int), name@),
        decreases list.len() - i,
    {
        assert(all.skip(i as int)[0] == list@[i as int]@);
        if text::matches_ignoring_case(list[i].as_str(), name) {
            return i;
        }
        assert(all.skip(i as int).drop_first() =~= all.skip(i + 1));
        i += 1;
    }
    i
}

/// The id choice that stands for a pair of ids.
pub fn choice_of_ids(options: &[(u8, u8)], sysid: Option<u8>, compid: Option<u8>) -> (n: usize)
    ensures
        n == id_choice(options@, sysid, compid),
        n <= options@.len(),
{
    match (sysid, compid) {
        (Some(s), Some(c)) => {
            let i = find_pair(options, (s, c));
            if i < options.len() {
                i + 1
            } else {
                0
            }
        },
        _ => 0,
    }
}

/// The ids that a choice stands for.
pub fn ids_of_choice(options: &[(u8, u8)], choice: usize) -> (r: (Option<u8>, Option<u8>))
    requires
        choice <= options@.len(),
    ensures
        r == ids_chosen(options@, choice as int),
{
    if choice == 0 {
        (None, None)
    } else {
        let pair = options[choice - 1];
        (Some(pair.0), Some(pair.1))
    }
}

/// Map a 0=any / 1=primary / 2=secondary dropdown choice to a source filter.
pub fn source_from_choice(choice: usize) -> (r: Option<LogSourceId>)
    ensures
        r == source_chosen(choice as int),
{
    if choice == 1 {
        Some(LogSourceId::Primary)
    } else if choice == 2 {
        Some(LogSourceId::Secondary)
    } else {
        None
    }
}

/// The dropdown choice (0/1/2) representing an optional source.
pub fn source_choice(source: Option<LogSourceId>) -> (n: usize)
    ensures
        n <= 2,
        source_chosen(n as int) == source,
{
    match source {
        None => 0,
        Some(LogSourceId::Primary) => 1,
        Some(LogSourceId::Secondary) => 2,
    }
}

/// Whether labels are those of the source choices of a merged session: any, and
/// the file names of the two logs.
pub open spec fn are_source_labels(s: SessionView, labels: Seq<Seq<char>>) -> bool {
    &&& labels.len() == 3
    &&& labels[0] == "any"@
    &&& is_source_label(s, LogSourceId::Primary, labels[1])
    &&& is_source_label(s, LogSourceId::Secondary, labels[2])
}

/// Whether a label is that of one source: the file name of its log, or its
/// format tag.
pub open spec fn is_source_label(s: SessionView, source: LogSourceId, label: Seq<char>) -> bool {
    match s.source_path(source) {
        Some(p) => path::is_label(p, label) && (!p.contains('\\') ==> label == path::label(
            p,
            false,
        )),
        None => label == filter::source_text(source),
    }
}

/// The label of one source.
fn label_of_source(session: &Session, source: LogSourceId) -> (r: String)
    ensures
        is_source_label(session@, source, r@),
{
    match session.source_name(source) {
        Some(n) => n,
        None => filter::source_token(source).to_string(),
    }
}

/// The labels of the source dropdown, which is only shown in a merged session.
pub fn source_options(session: &Session) -> (r: Option<Vec<String>>)
    ensures
        match r {
            Some(v) => session@.sync is Some && are_source_labels(session@, text::views(v@)),
            None => session@.sync is None,
        },
{
    if !session.is_merged() {
        return None;
    }
    let mut v: Vec<String> = Vec::new();
    v.push("any".to_string());
    v.push(label_of_source(session, LogSourceId::Primary));
    v.push(label_of_source(session, LogSourceId::Secondary));
    assert(text::views(v@) =~= seq![v@[0]@, v@[1]@, v@[2]@]);
    Some(v)
}

/// Choosing the option of a pair of ids and reading the choice gives the pair.
pub proof fn law_id_choice_reads_back(options: Seq<(u8, u8)>, pair: (u8, u8))
    requires
        options.contains(pair),
    ensures
        0 < id_choice(options, Some(pair.0), Some(pair.1)) <= options.len(),
        ids_chosen(options, id_choice(options, Some(pair.0), Some(pair.1))) == (
            Some(pair.0),
            Some(pair.1),
        ),
{
    lemma_pair_index(options, pair);
}

/// A pair that is there is found.
proof fn lemma_pair_index(list: Seq<(u8, u8)>, pair: (u8, u8))
    requires
        list.contains(pair),
    ensures
        0 <= pair_index(list, pair) < list.len(),
        list[pair_index(list, pair)] == pair,
    decreases list.len(),
{
    if list[0] != pair {
        let k = choose|k: int| 0 <= k < list.len() && list[k] == pair;
        assert(list.drop_first()[k - 1] == pair);
        lemma_pair_index(list.drop_first(), pair);
    }
}

/// A name that is there is found.
pub proof fn lemma_name_index(list: Seq<Seq<char>>, name: Seq<char>, k: int)
    requires
        0 <= k < list.len(),
        text::same_ignoring_case(list[k], name),
    ensures
        0 <= name_index(list, name) <= k,
        text::same_ignoring_case(list[name_index(list, name)], name),
    decreases list.len(),
{
    if !text::same_ignoring_case(list[0], name) {
        lemma_name_index(list.drop_first(), name, k - 1);
    }
}

/// Whether ids can be shown as one of the options: none, or a pair of them.
pub open spec fn offered(options: Seq<(u8, u8)>, sysid: Option<u8>, compid: Option<u8>) -> bool {
    match (sysid, compid) {
        (None, None) => true,
        (Some(s), Some(c)) => options.contains((s, c)),
        _ => false,
    }
}

/// Whether a name is among the options, in any case.
pub open spec fn listed(options: Seq<Seq<char>>, name: Seq<char>) -> bool {
    exists|k: int|
        0 <= k < options.len() && text::same_ignoring_case(#[trigger] options[k], name)
}

/// A pair of ids is chosen by the place of its first occurrence among the options,
/// counted from 1; a pair that is no option, and an open one, by 0.
pub proof fn law_id_choice(options: Seq<(u8, u8)>, i: int, s: u8, c: u8, id: Option<u8>)
    ensures
        0 <= i < options.len() && options[i] == (s, c) && (forall|k: int|
            0 <= k < i ==> #[trigger] options[k] != (s, c)) ==> id_choice(options, Some(s), Some(c))
            == i + 1,
        !options.contains((s, c)) ==> id_choice(options, Some(s), Some(c)) == 0,
        id_choice(options, None, id) == 0 && id_choice(options, id, None) == 0,
        ids_chosen(options, 0) == (None::<u8>, None::<u8>),
        0 <= i < options.len() ==> ids_chosen(options, i + 1) == (
            Some(options[i].0),
            Some(options[i].1),
        ),
{
    lemma_pair_place(options, (s, c));
    let n = pair_index(options, (s, c));
    if 0 <= i < options.len() && options[i] == (s, c) && n < i {
        assert(options[n] == (s, c));
    }
    if n < options.len() {
        assert(options.contains(options[n]));
    }
}

/// Where a pair stands first.
proof fn lemma_pair_place(list: Seq<(u8, u8)>, pair: (u8, u8))
    ensures
        0 <= pair_index(list, pair) <= list.len(),
        pair_index(list, pair) < list.len() ==> list[pair_index(list, pair)] == pair,
        forall|k: int| 0 <= k < pair_index(list, pair) ==> #[trigger] list[k] != pair,
    decreases list.len(),
{
    if list.len() > 0 && list[0] != pair {
        let rest = list.drop_first();
        lemma_pair_place(rest, pair);
        assert forall|k: int| 0 <= k < pair_index(list, pair) implies #[trigger] list[k] != pair by {
            if k > 0 {
                assert(rest[k - 1] == list[k]);
            }
        }
    }
}

/// The logs are chosen by 1 and 2, and anything else leaves the log open.
pub proof fn law_source_choice(choice: int)
    ensures
        source_chosen(1) == Some(LogSourceId::Primary),
        source_chosen(2) == Some(LogSourceId::Secondary),
        choice != 1 && choice != 2 ==> source_chosen(choice) is None,
{
}

/// A name is found at its first occurrence in any case, or not at all.
pub proof fn law_name_index(list: Seq<Seq<char>>, i: int, name: Seq<char>)
    ensures
        0 <= i < list.len() && text::lower(list[i]) == text::lower(name) && (forall|k: int|
            0 <= k < i ==> text::lower(#[trigger] list[k]) != text::lower(name)) ==> name_index(
            list,
            name,
        ) == i,
        (forall|k: int| 0 <= k < list.len() ==> text::lower(#[trigger] list[k]) != text::lower(name))
            ==> name_index(list, name) == list.len(),
    decreases list.len(),
{
    if list.len() > 0 {
        let rest = list.drop_first();
        law_name_index(rest, i - 1, name);
        if text::lower(list[0]) != text::lower(name) {
            if 0 <= i < list.len() && text::lower(list[i]) == text::lower(name) && (forall|k: int|
                0 <= k < i ==> text::lower(#[trigger] list[k]) != text::lower(name)) {
                assert forall|k: int| 0 <= k < i - 1 implies text::lower(#[trigger] rest[k])
                    != text::lower(name) by {
                    assert(rest[k] == list[k + 1]);
                }
                assert(rest[i - 1] == list[i]);
            }
            if forall|k: int|
                0 <= k < list.len() ==> text::lower(#[trigger] list[k]) != text::lower(name) {
                assert forall|k: int| 0 <= k < rest.len() implies text::lower(#[trigger] rest[k])
                    != text::lower(name) by {
                    assert(rest[k] == list[k + 1]);
                }
            }
        } else if i > 0 {
            assert(text::lower(list[0]) == text::lower(name));
        }
    }
}

} // verus!
