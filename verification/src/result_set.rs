//! The answer to a top list query: a total and a count for each label.

use vstd::prelude::*;
use vstd::string::*;

verus! {

/// One record of the answer: a label and its count.
#[derive(Debug, PartialEq, Eq)]
pub struct RecordEntry {
    pub label: String,
    pub count: i32,
}

impl View for RecordEntry {
    type V = (Seq<char>, i32);

    open spec fn view(&self) -> (Seq<char>, i32) {
        (self.label@, self.count)
    }
}

/// The records of a list of entries, each as a pair of label and count.
pub open spec fn record_views(entries: Seq<RecordEntry>) -> Seq<(Seq<char>, i32)> {
    entries.map_values(|entry: RecordEntry| entry@)
}

/// The mapping that records build when they are entered one after another:
/// a label that comes again takes the later count.
pub open spec fn mapping_of(records: Seq<(Seq<char>, i32)>) -> Map<Seq<char>, i32>
    decreases records.len(),
{
    if records.len() == 0 {
        Map::empty()
    } else {
        mapping_of(records.drop_last()).insert(records.last().0, records.last().1)
    }
}

/// No label stands in two records.
pub open spec fn labels_distinct(records: Seq<(Seq<char>, i32)>) -> bool {
    forall|i: int, j: int| 0 <= i < j < records.len() ==> records[i].0 != records[j].0
}

/// `label` stands in one of the records.
pub open spec fn has_label(records: Seq<(Seq<char>, i32)>, label: Seq<char>) -> bool {
    exists|i: int| 0 <= i < records.len() && (#[trigger] records[i]).0 == label
}

/// The mapping of a list of records holds exactly the labels that stand in
/// the list.
pub proof fn lemma_mapping_keys(records: Seq<(Seq<char>, i32)>, label: Seq<char>)
    ensures
        mapping_of(records).contains_key(label) <==> has_label(records, label),
    decreases records.len(),
{
    if records.len() > 0 {
        let front = records.drop_last();
        lemma_mapping_keys(front, label);
        if has_label(front, label) {
            let i = choose|i: int| 0 <= i < front.len() && (#[trigger] front[i]).0 == label;
            assert(records[i].0 == label);
        }
        if has_label(records, label) && records.last().0 != label {
            let i = choose|i: int| 0 <= i < records.len() && (#[trigger] records[i]).0 == label;
            assert(front[i].0 == label);
        }
    }
}

/// A label is mapped to the count of the last record that carries it.
pub proof fn lemma_mapping_last_wins(records: Seq<(Seq<char>, i32)>, i: int)
    requires
        0 <= i < records.len(),
        forall|j: int| i < j < records.len() ==> (#[trigger] records[j]).0 != records[i].0,
    ensures
        mapping_of(records).contains_key(records[i].0),
        mapping_of(records)[records[i].0] == records[i].1,
    decreases records.len(),
{
    if i < records.len() - 1 {
        let front = records.drop_last();
        assert forall|j: int| i < j < front.len() implies (#[trigger] front[j]).0 != front[i].0 by {
            assert(front[j] == records[j]);
        }
        lemma_mapping_last_wins(front, i);
    }
}

/// With distinct labels the mapping has one key for each record.
pub proof fn lemma_mapping_len(records: Seq<(Seq<char>, i32)>)
    requires
        labels_distinct(records),
    ensures
        mapping_of(records).dom().finite(),
        mapping_of(records).len() == records.len(),
    decreases records.len(),
{
    if records.len() > 0 {
        let front = records.drop_last();
        assert forall|i: int, j: int| 0 <= i < j < front.len() implies front[i].0 != front[j].0 by {
            assert(front[i] == records[i] && front[j] == records[j]);
        }
        lemma_mapping_len(front);
        lemma_mapping_keys(front, records.last().0);
        if has_label(front, records.last().0) {
            let i = choose|i: int|
                0 <= i < front.len() && (#[trigger] front[i]).0 == records.last().0;
            assert(records[i].0 == records.last().0);
        }
    }
}

/// Replacing the count of one record, where labels are distinct, is
/// entering that label anew.
proof fn lemma_replace_count(records: Seq<(Seq<char>, i32)>, i: int, count: i32)
    requires
        labels_distinct(records),
        0 <= i < records.len(),
    ensures
        labels_distinct(records.update(i, (records[i].0, count))),
        mapping_of(records.update(i, (records[i].0, count))) == mapping_of(records).insert(
            records[i].0,
            count,
        ),
{
    let label = records[i].0;
    let after = records.update(i, (label, count));
    let lhs = mapping_of(after);
    let rhs = mapping_of(records).insert(label, count);
    assert forall|a: int, b: int| 0 <= a < b < after.len() implies after[a].0 != after[b].0 by {
        assert(after[a].0 == records[a].0 && after[b].0 == records[b].0);
    }
    assert forall|k: Seq<char>| lhs.contains_key(k) <==> rhs.contains_key(k) by {
        lemma_mapping_keys(after, k);
        lemma_mapping_keys(records, k);
        if has_label(after, k) {
            let j = choose|j: int| 0 <= j < after.len() && (#[trigger] after[j]).0 == k;
            assert(records[j].0 == k);
        }
        if has_label(records, k) {
            let j = choose|j: int| 0 <= j < records.len() && (#[trigger] records[j]).0 == k;
            assert(after[j].0 == k);
        }
    }
    assert forall|k: Seq<char>| lhs.contains_key(k) implies lhs[k] == rhs[k] by {
        lemma_mapping_keys(after, k);
        let j = choose|j: int| 0 <= j < after.len() && (#[trigger] after[j]).0 == k;
        lemma_mapping_last_wins(after, j);
        lemma_mapping_last_wins(records, j);
    }
    assert(lhs =~= rhs);
}

/// `ResultSet` as a total and a mapping.
pub struct ResultSetView {
    pub total: i32,
    pub mapping: Map<Seq<char>, i32>,
}

/// The total that the daemon reports and the count of each label of its
/// list. Each label is held once.
#[derive(Debug)]
pub struct ResultSet {
    total: i32,
    entries: Vec<RecordEntry>,
}

impl View for ResultSet {
    type V = ResultSetView;

    closed spec fn view(&self) -> ResultSetView {
        ResultSetView { total: self.total, mapping: mapping_of(record_views(self.entries@)) }
    }
}

/// The outcome of reading a result, with the result as a total and a
/// mapping.
pub open spec fn outcome_view<E>(outcome: Result<ResultSet, E>) -> Result<ResultSetView, E> {
    match outcome {
        Ok(result) => Ok(result@),
        Err(e) => Err(e),
    }
}

/// The index of the entry that carries `label`, if one does.
fn position_of(entries: &Vec<RecordEntry>, label: &String) -> (found: Option<usize>)
    ensures
        match found {
            Some(i) => i < entries@.len() && entries@[i as int].label@ == label@,
            None => !has_label(record_views(entries@), label@),
        },
{
    let mut i: usize = 0;
    while i < entries.len()
        invariant
            i <= entries@.len(),
            forall|j: int| 0 <= j < i ==> (#[trigger] record_views(entries@)[j]).0 != label@,
        decreases entries@.len() - i,
    {
        if entries[i].label == *label {
            return Some(i);
        }
        i = i + 1;
    }
    None
}

impl ResultSet {
    #[verifier::type_invariant]
    spec fn each_label_once(&self) -> bool {
        labels_distinct(record_views(self.entries@))
    }

    /// A result with the given total and no entries.
    pub fn new(total: i32) -> (result: Self)
        ensures
            result@.total == total,
            result@.mapping == Map::<Seq<char>, i32>::empty(),
    {
        ResultSet { total, entries: Vec::new() }
    }

    /// The total.
    pub fn total(&self) -> (total: i32)
        ensures
            total == self@.total,
    {
        self.total
    }

    /// The number of labels.
    pub fn len(&self) -> (n: usize)
        ensures
            self@.mapping.dom().finite(),
            n == self@.mapping.len(),
    {
        proof {
            use_type_invariant(self);
            lemma_mapping_len(record_views(self.entries@));
        }
        self.entries.len()
    }

    /// The count of `label`, if the result holds it.
    pub fn get(&self, label: &str) -> (count: Option<i32>)
        ensures
            count == if self@.mapping.contains_key(label@) {
                Some(self@.mapping[label@])
            } else {
                None
            },
    {
        proof {
            use_type_invariant(self);
            lemma_mapping_keys(record_views(self.entries@), label@);
        }
        let key = String::from_str(label);
        match position_of(&self.entries, &key) {
            Some(i) => {
                proof {
                    lemma_mapping_last_wins(record_views(self.entries@), i as int);
                }
                Some(self.entries[i].count)
            },
            None => None,
        }
    }

    /// Enters `count` for `label`, in place of the count the label had.
    pub fn insert(&mut self, label: String, count: i32)
        ensures
            final(self)@.total == old(self)@.total,
            final(self)@.mapping == old(self)@.mapping.insert(label@, count),
    {
        proof {
            use_type_invariant(&*self);
        }
        let ghost before = record_views(self.entries@);
        let mut entries: Vec<RecordEntry> = Vec::new();
        std::mem::swap(&mut self.entries, &mut entries);
        match position_of(&entries, &label) {
            Some(i) => {
                proof {
                    lemma_replace_count(before, i as int, count);
                    assert(record_views(
                        entries@.update(
                            i as int,
                            RecordEntry { label: entries@[i as int].label, count },
                        ),
                    ) =~= before.update(i as int, (before[i as int].0, count)));
                }
                entries[i].count = count;
            },
            None => {
                let entry = RecordEntry { label, count };
                proof {
                    let after = before.push(entry@);
                    assert(record_views(entries@.push(entry)) =~= after);
                    assert(after.drop_last() =~= before);
                    assert forall|a: int, b: int| 0 <= a < b < after.len() implies after[a].0
                        != after[b].0 by {
                        assert(after[a] == before[a]);
                        if b < before.len() {
                            assert(after[b] == before[b]);
                        }
                    }
                }
                entries.push(entry);
            },
        }
        std::mem::swap(&mut self.entries, &mut entries);
    }

    /// The entries, each label once.
    pub fn entries(&self) -> (list: &Vec<RecordEntry>)
        ensures
            labels_distinct(record_views(list@)),
            mapping_of(record_views(list@)) == self@.mapping,
    {
        proof {
            use_type_invariant(self);
        }
        &self.entries
    }
}

} // verus!
