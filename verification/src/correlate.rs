//! Joining the records that the backend returned with the names asked for.

use crate::ident::SecretId;
use crate::mapping::SecretMapping;
use vstd::prelude::*;

verus! {

/// A secret as the backend returned it: its identifier and its value.
#[derive(Debug)]
pub struct SecretRecord {
    pub id: SecretId,
    pub value: String,
}

/// A secret ready to be exposed: the name asked for and the value.
#[derive(Debug)]
pub struct ResolvedSecret {
    pub name: String,
    pub value: String,
}

impl View for SecretRecord {
    type V = (u128, Seq<char>);

    open spec fn view(&self) -> (u128, Seq<char>) {
        (self.id.value, self.value@)
    }
}

impl View for ResolvedSecret {
    type V = (Seq<char>, Seq<char>);

    open spec fn view(&self) -> (Seq<char>, Seq<char>) {
        (self.name@, self.value@)
    }
}

/// The views of a sequence of records.
pub open spec fn record_views(records: Seq<SecretRecord>) -> Seq<(u128, Seq<char>)> {
    records.map_values(|r: SecretRecord| r@)
}

/// The views of a sequence of resolved secrets.
pub open spec fn resolved_views(secrets: Seq<ResolvedSecret>) -> Seq<(Seq<char>, Seq<char>)> {
    secrets.map_values(|s: ResolvedSecret| s@)
}

/// The pairs of name and value for `records`, in their order: one for each
/// record whose identifier the mapping holds, none for the others.
pub open spec fn resolved(mapping: Map<u128, Seq<char>>, records: Seq<(u128, Seq<char>)>) -> Seq<
    (Seq<char>, Seq<char>),
>
    decreases records.len(),
{
    if records.len() == 0 {
        Seq::empty()
    } else {
        let before = resolved(mapping, records.drop_last());
        let record = records.last();
        if mapping.contains_key(record.0) {
            before.push((mapping[record.0], record.1))
        } else {
            before
        }
    }
}

/// Gives each returned record the name that was asked for under its
/// identifier. A record whose identifier was not asked for is dropped, and
/// an identifier without a record gives nothing.
pub fn correlate(mapping: &SecretMapping, records: &Vec<SecretRecord>) -> (res: Vec<ResolvedSecret>)
    ensures
        resolved_views(res@) == resolved(mapping@, record_views(records@)),
{
    let mut res: Vec<ResolvedSecret> = Vec::new();
    let ghost all = record_views(records@);
    assert(resolved_views(res@) =~= Seq::<(Seq<char>, Seq<char>)>::empty());
    for i in 0..records.len()
        invariant
            all == record_views(records@),
            resolved_views(res@) == resolved(mapping@, all.take(i as int)),
    {
        proof {
            assert(all.take(i + 1).drop_last() =~= all.take(i as int));
            assert(all.take(i + 1).last() == records@[i as int]@);
        }
        let record = &records[i];
        match mapping.get(&record.id) {
            Some(name) => {
                let secret = ResolvedSecret { name: name.clone(), value: record.value.clone() };
                let ghost before = res@;
                res.push(secret);
                assert(resolved_views(res@) =~= resolved_views(before).push(secret@));
            },
            None => {},
        }
    }
    assert(all.take(records.len() as int) =~= all);
    res
}

/// Resolving distributes over the concatenation of records.
pub proof fn lemma_resolved_concat(
    mapping: Map<u128, Seq<char>>,
    a: Seq<(u128, Seq<char>)>,
    b: Seq<(u128, Seq<char>)>,
)
    ensures
        resolved(mapping, a + b) == resolved(mapping, a) + resolved(mapping, b),
    decreases b.len(),
{
    if b.len() == 0 {
        assert(a + b =~= a);
        assert(resolved(mapping, a) + resolved(mapping, b) =~= resolved(mapping, a));
    } else {
        assert((a + b).drop_last() =~= a + b.drop_last());
        lemma_resolved_concat(mapping, a, b.drop_last());
        assert(resolved(mapping, a + b) =~= resolved(mapping, a) + resolved(mapping, b));
    }
}

/// A record whose identifier the mapping does not hold gives no resolved
/// secret: the result is the same as without the record.
pub proof fn lemma_unrequested_dropped(
    mapping: Map<u128, Seq<char>>,
    before: Seq<(u128, Seq<char>)>,
    record: (u128, Seq<char>),
    after: Seq<(u128, Seq<char>)>,
)
    requires
        !mapping.contains_key(record.0),
    ensures
        resolved(mapping, before.push(record) + after) == resolved(mapping, before + after),
        resolved(mapping, seq![record]) == Seq::<(Seq<char>, Seq<char>)>::empty(),
{
    let one = seq![record];
    assert(one.drop_last() =~= Seq::<(u128, Seq<char>)>::empty());
    assert(one.last() == record);
    assert(resolved(mapping, one.drop_last()) =~= Seq::<(Seq<char>, Seq<char>)>::empty());
    assert(resolved(mapping, one) =~= Seq::<(Seq<char>, Seq<char>)>::empty());
    assert(before.push(record) =~= before + one);
    lemma_resolved_concat(mapping, before, one);
    lemma_resolved_concat(mapping, before + one, after);
    lemma_resolved_concat(mapping, before, after);
    assert(resolved(mapping, before) + resolved(mapping, one) =~= resolved(mapping, before));
}

/// Every resolved secret stems from a record whose identifier the mapping
/// holds: it carries that record's value under the mapped name. So an
/// identifier without a record gives nothing.
pub proof fn lemma_resolved_origin(
    mapping: Map<u128, Seq<char>>,
    records: Seq<(u128, Seq<char>)>,
    k: int,
)
    requires
        0 <= k < resolved(mapping, records).len(),
    ensures
        exists|i: int|
            0 <= i < records.len() && mapping.contains_key(records[i].0) && resolved(
                mapping,
                records,
            )[k] == (mapping[records[i].0], records[i].1),
    decreases records.len(),
{
    let init = records.drop_last();
    let last = records.last();
    if k < resolved(mapping, init).len() {
        lemma_resolved_origin(mapping, init, k);
        let i = choose|i: int|
            0 <= i < init.len() && mapping.contains_key(init[i].0) && resolved(mapping, init)[k]
                == (mapping[init[i].0], init[i].1);
        assert(records[i] == init[i]);
    } else {
        assert(records[records.len() - 1] == last);
    }
}

/// There are exactly as many resolved secrets as records whose identifier
/// the mapping holds, so never more than records.
pub proof fn lemma_resolved_len(mapping: Map<u128, Seq<char>>, records: Seq<(u128, Seq<char>)>)
    ensures
        resolved(mapping, records).len() == records.filter(
            |r: (u128, Seq<char>)| mapping.contains_key(r.0),
        ).len(),
        resolved(mapping, records).len() <= records.len(),
    decreases records.len(),
{
    reveal(Seq::filter);
    if records.len() > 0 {
        lemma_resolved_len(mapping, records.drop_last());
    }
}

} // verus!
