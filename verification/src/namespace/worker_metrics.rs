//! The counters of all data-plane processes as one set.

use crate::json::{
    Member, MemberModel, Value, ValueModel, find, json_object, lemma_place, models, object, place,
    read_object, same, same_value,
};
use vstd::prelude::*;

verus! {

pub enum MetricsError {
    /// There is no report of the first worker.
    Missing,
    /// The report of another worker is none.
    Invalid,
    /// The first worker has no such entry.
    Inconsistent(Vec<u8>),
    /// Workers differ in what they must have in common.
    Differs(Vec<u8>),
    /// A counter is no unsigned number.
    NotUnsigned(Vec<u8>),
}

/// What is wrong with the reports.
pub enum FaultModel {
    Missing,
    Invalid,
    Inconsistent(Seq<u8>),
    Differs(Seq<u8>),
    NotUnsigned(Seq<u8>),
}

impl View for MetricsError {
    type V = FaultModel;

    open spec fn view(&self) -> FaultModel {
        match self {
            MetricsError::Missing => FaultModel::Missing,
            MetricsError::Invalid => FaultModel::Invalid,
            MetricsError::Inconsistent(name) => FaultModel::Inconsistent(name@),
            MetricsError::Differs(name) => FaultModel::Differs(name@),
            MetricsError::NotUnsigned(name) => FaultModel::NotUnsigned(name@),
        }
    }
}

/// `tap_mtu`.
pub open spec fn tap_mtu_name() -> Seq<u8> {
    seq![116u8, 97u8, 112u8, 95u8, 109u8, 116u8, 117u8]
}

/// `tap_offload`.
pub open spec fn tap_offload_name() -> Seq<u8> {
    seq![116u8, 97u8, 112u8, 95u8, 111u8, 102u8, 102u8, 108u8, 111u8, 97u8, 100u8]
}

/// `tap_frame_capacity`.
pub open spec fn tap_frame_capacity_name() -> Seq<u8> {
    seq![
        116u8,
        97u8,
        112u8,
        95u8,
        102u8,
        114u8,
        97u8,
        109u8,
        101u8,
        95u8,
        99u8,
        97u8,
        112u8,
        97u8,
        99u8,
        105u8,
        116u8,
        121u8,
    ]
}

/// `workers`.
pub open spec fn workers_name() -> Seq<u8> {
    seq![119u8, 111u8, 114u8, 107u8, 101u8, 114u8, 115u8]
}

/// Whether an entry is a setting that all workers share rather than a counter.
pub open spec fn is_invariant(name: Seq<u8>) -> bool {
    name == tap_mtu_name() || name == tap_offload_name() || name == tap_frame_capacity_name()
}

/// Two counters together.
pub open spec fn total(left: u64, right: u64) -> u64 {
    if left + right <= u64::MAX {
        (left + right) as u64
    } else {
        u64::MAX
    }
}

/// The entries after one more entry of a worker is added to them.
pub open spec fn with_entry(all: Seq<MemberModel>, entry: MemberModel) -> Result<
    Seq<MemberModel>,
    FaultModel,
> {
    let at = place(all, entry.name, 0);
    if at >= all.len() {
        Err(FaultModel::Inconsistent(entry.name))
    } else if is_invariant(entry.name) {
        if same(all[at].value, entry.value) {
            Ok(all)
        } else {
            Err(FaultModel::Differs(entry.name))
        }
    } else {
        match (all[at].value, entry.value) {
            (ValueModel::Unsigned(left), ValueModel::Unsigned(right)) => Ok(
                all.update(
                    at,
                    MemberModel {
                        name: all[at].name,
                        value: ValueModel::Unsigned(total(left, right)),
                    },
                ),
            ),
            _ => Err(FaultModel::NotUnsigned(entry.name)),
        }
    }
}

/// The entries after the first `count` entries of a worker are added to them.
pub open spec fn with_worker(
    all: Seq<MemberModel>,
    worker: Seq<MemberModel>,
    count: int,
) -> Result<Seq<MemberModel>, FaultModel>
    decreases count,
{
    if count <= 0 {
        Ok(all)
    } else {
        match with_worker(all, worker, count - 1) {
            Ok(before) => with_entry(before, worker[count - 1]),
            Err(fault) => Err(fault),
        }
    }
}

/// The reports as sequences; a report that is none is `None`.
pub open spec fn reports(workers: Seq<Option<Vec<Member>>>) -> Seq<Option<Seq<MemberModel>>> {
    Seq::new(workers.len(), |i: int| object(workers[i]))
}

/// The entries of the first `count` workers together.
pub open spec fn with_workers(workers: Seq<Option<Seq<MemberModel>>>, count: int) -> Result<
    Seq<MemberModel>,
    FaultModel,
>
    decreases count,
{
    if count <= 1 {
        if workers.len() == 0 || workers[0] is None {
            Err(FaultModel::Missing)
        } else {
            Ok(workers[0]->0)
        }
    } else {
        match with_workers(workers, count - 1) {
            Ok(before) => match workers[count - 1] {
                Some(worker) => with_worker(before, worker, worker.len() as int),
                None => Err(FaultModel::Invalid),
            },
            Err(fault) => Err(fault),
        }
    }
}

/// The entries with the number of workers among them.
pub open spec fn with_count(all: Seq<MemberModel>, count: u64) -> Seq<MemberModel> {
    let at = place(all, workers_name(), 0);
    let entry = MemberModel { name: workers_name(), value: ValueModel::Unsigned(count) };
    if at < all.len() {
        all.update(at, entry)
    } else {
        all.push(entry)
    }
}

fn copied(name: &[u8]) -> (copy: Vec<u8>)
    ensures
        copy@ == name@,
{
    let mut copy: Vec<u8> = Vec::new();
    crate::text::push_all(&mut copy, name);
    assert(copy@ =~= name@);
    copy
}

fn invariant_name(name: &[u8]) -> (yes: bool)
    ensures
        yes == is_invariant(name@),
{
    let mtu = [116, 97, 112, 95, 109, 116, 117];
    let offload = [116, 97, 112, 95, 111, 102, 102, 108, 111, 97, 100];
    let capacity = [
        116, 97, 112, 95, 102, 114, 97, 109, 101, 95, 99, 97, 112, 97, 99, 105, 116, 121,
    ];
    assert(mtu@ =~= tap_mtu_name());
    assert(offload@ =~= tap_offload_name());
    assert(capacity@ =~= tap_frame_capacity_name());
    crate::bytes::equal(name, &mtu) || crate::bytes::equal(name, &offload) || crate::bytes::equal(
        name,
        &capacity,
    )
}

fn sum(left: u64, right: u64) -> (value: u64)
    ensures
        value == total(left, right),
{
    match left.checked_add(right) {
        Some(value) => value,
        None => u64::MAX,
    }
}

fn add_entry(all: &mut Vec<Member>, entry: &Member) -> (result: Result<(), MetricsError>)
    ensures
        match result {
            Ok(_) => with_entry(models(old(all)@), entry@) == Ok::<_, FaultModel>(
                models(final(all)@),
            ),
            Err(error) => with_entry(models(old(all)@), entry@) == Err::<Seq<MemberModel>, _>(
                error@,
            ),
        },
{
    let at: usize = find(all, &entry.name);
    if at >= all.len() {
        return Err(MetricsError::Inconsistent(copied(&entry.name)));
    }
    let ghost before = models(all@);
    assert(before[at as int] == all@[at as int]@);
    if invariant_name(&entry.name) {
        if !same_value(&all[at].value, &entry.value) {
            return Err(MetricsError::Differs(copied(&entry.name)));
        }
        return Ok(());
    }
    match (&all[at].value, &entry.value) {
        (Value::Unsigned(left), Value::Unsigned(right)) => {
            let value: u64 = sum(*left, *right);
            let name = copied(&all[at].name);
            all.set(at, Member { name, value: Value::Unsigned(value) });
            assert(models(all@) =~= before.update(
                at as int,
                MemberModel {
                    name: before[at as int].name,
                    value: ValueModel::Unsigned(value),
                },
            ));
            Ok(())
        },
        _ => Err(MetricsError::NotUnsigned(copied(&entry.name))),
    }
}

fn add_worker(all: &mut Vec<Member>, worker: &Vec<Member>) -> (result: Result<(), MetricsError>)
    ensures
        match result {
            Ok(_) => with_worker(models(old(all)@), models(worker@), worker@.len() as int) == Ok::<
                _,
                FaultModel,
            >(models(final(all)@)),
            Err(error) => with_worker(models(old(all)@), models(worker@), worker@.len() as int)
                == Err::<Seq<MemberModel>, _>(error@),
        },
{
    let ghost start = models(all@);
    let ghost entries = models(worker@);
    let mut i: usize = 0;
    while i < worker.len()
        invariant
            i <= worker@.len(),
            start == models(old(all)@),
            entries == models(worker@),
            with_worker(start, entries, i as int) == Ok::<_, FaultModel>(models(all@)),
        decreases worker@.len() - i,
    {
        assert(entries[i as int] == worker@[i as int]@);
        match add_entry(all, &worker[i]) {
            Ok(_) => {},
            Err(error) => {
                proof {
                    lemma_fault_stays(start, entries, i + 1, worker@.len() as int);
                }
                return Err(error);
            },
        }
        i = i + 1;
    }
    Ok(())
}

proof fn lemma_fault_stays(
    all: Seq<MemberModel>,
    worker: Seq<MemberModel>,
    from: int,
    to: int,
)
    requires
        0 <= from <= to,
        with_worker(all, worker, from) is Err,
    ensures
        with_worker(all, worker, to) == with_worker(all, worker, from),
    decreases to - from,
{
    if from < to {
        lemma_fault_stays(all, worker, from, to - 1);
    }
}

proof fn lemma_worker_fault_stays(workers: Seq<Option<Seq<MemberModel>>>, from: int, to: int)
    requires
        1 <= from <= to,
        with_workers(workers, from) is Err,
    ensures
        with_workers(workers, to) == with_workers(workers, from),
    decreases to - from,
{
    if from < to {
        lemma_worker_fault_stays(workers, from, to - 1);
    }
}

fn copied_value(value: &Value) -> (copy: Value)
    ensures
        copy@ == value@,
{
    match value {
        Value::Unsigned(value) => Value::Unsigned(*value),
        Value::Negative(value) => Value::Negative(*value),
        Value::Text(text) => Value::Text(copied(text)),
        Value::Other(text) => Value::Other(copied(text)),
    }
}

fn copied_report(metrics: &Vec<Member>) -> (copy: Vec<Member>)
    ensures
        models(copy@) == models(metrics@),
{
    let mut copy: Vec<Member> = Vec::new();
    let mut i: usize = 0;
    while i < metrics.len()
        invariant
            i <= metrics@.len(),
            copy@.len() == i,
            forall|j: int| 0 <= j < i ==> (#[trigger] copy@[j])@ == metrics@[j]@,
        decreases metrics@.len() - i,
    {
        let name = copied(&metrics[i].name);
        let value = copied_value(&metrics[i].value);
        copy.push(Member { name, value });
        assert(copy@[i as int]@ == metrics@[i as int]@);
        i = i + 1;
    }
    assert(models(copy@) =~= models(metrics@));
    copy
}

/// The reports of all workers as one: counters add up, shared settings must be
/// the same, and the number of workers is added.
pub fn merge_dataplane_metrics(workers: &Vec<Option<Vec<Member>>>) -> (result: Result<
    Vec<Member>,
    MetricsError,
>)
    ensures
        match result {
            Ok(merged) => match with_workers(reports(workers@), workers@.len() as int) {
                Ok(all) => models(merged@) == with_count(all, workers@.len() as u64),
                Err(_) => false,
            },
            Err(error) => with_workers(reports(workers@), workers@.len() as int) == Err::<
                Seq<MemberModel>,
                _,
            >(error@),
        },
{
    let ghost model = reports(workers@);
    if workers.len() == 0 {
        return Err(MetricsError::Missing);
    }
    assert(model[0] == match workers@[0] {
        Some(metrics) => Some(models(metrics@)),
        None => None,
    });
    let mut all = match &workers[0] {
        Some(metrics) => copied_report(metrics),
        None => {
            proof {
                lemma_worker_fault_stays(model, 1, workers@.len() as int);
            }
            return Err(MetricsError::Missing);
        },
    };
    let mut i: usize = 1;
    while i < workers.len()
        invariant
            1 <= i <= workers@.len(),
            model == reports(workers@),
            with_workers(model, i as int) == Ok::<_, FaultModel>(models(all@)),
        decreases workers@.len() - i,
    {
        assert(model[i as int] == match workers@[i as int] {
            Some(metrics) => Some(models(metrics@)),
            None => None,
        });
        match &workers[i] {
            Some(worker) => match add_worker(&mut all, worker) {
                Ok(_) => {},
                Err(error) => {
                    proof {
                        lemma_worker_fault_stays(model, i + 1, workers@.len() as int);
                    }
                    return Err(error);
                },
            },
            None => {
                proof {
                    lemma_worker_fault_stays(model, i + 1, workers@.len() as int);
                }
                return Err(MetricsError::Invalid);
            },
        }
        i = i + 1;
    }
    let ghost before = models(all@);
    let name: Vec<u8> = vec![119, 111, 114, 107, 101, 114, 115];
    assert(name@ =~= workers_name());
    let at: usize = find(&all, &name);
    let entry = Member { name, value: Value::Unsigned(workers.len() as u64) };
    let ghost added = entry@;
    if at < all.len() {
        all.set(at, entry);
        assert(models(all@) =~= before.update(at as int, added));
    } else {
        all.push(entry);
        assert(models(all@) =~= before.push(added));
    }
    Ok(all)
}

/// Why the replies of the workers give no report of them all.
pub enum ReportError {
    /// The reply of this worker is no JSON.
    NotJson(usize),
    Metrics(MetricsError),
}

/// The reports that the replies hold, where each of them is JSON.
pub open spec fn read_reports(replies: Seq<Vec<u8>>) -> Seq<Option<Seq<MemberModel>>> {
    Seq::new(replies.len(), |i: int| json_object(replies[i]@)->0)
}

/// Reads the replies of all workers and makes one report of them.
pub fn merge_worker_reports(replies: &Vec<Vec<u8>>) -> (result: Result<Vec<Member>, ReportError>)
    ensures
        match result {
            Err(ReportError::NotJson(worker)) => {
                &&& worker < replies@.len()
                &&& json_object(replies@[worker as int]@) is None
                &&& forall|i: int|
                    0 <= i < worker ==> json_object(#[trigger] replies@[i]@) is Some
            },
            Ok(merged) => {
                &&& forall|i: int|
                    0 <= i < replies@.len() ==> json_object(#[trigger] replies@[i]@) is Some
                &&& match with_workers(read_reports(replies@), replies@.len() as int) {
                    Ok(all) => models(merged@) == with_count(all, replies@.len() as u64),
                    Err(_) => false,
                }
            },
            Err(ReportError::Metrics(error)) => {
                &&& forall|i: int|
                    0 <= i < replies@.len() ==> json_object(#[trigger] replies@[i]@) is Some
                &&& with_workers(read_reports(replies@), replies@.len() as int) == Err::<
                    Seq<MemberModel>,
                    _,
                >(error@)
            },
        },
{
    let mut workers: Vec<Option<Vec<Member>>> = Vec::new();
    let mut i: usize = 0;
    while i < replies.len()
        invariant
            i <= replies@.len(),
            workers@.len() == i,
            forall|j: int| 0 <= j < i ==> json_object(#[trigger] replies@[j]@) is Some,
            forall|j: int|
                0 <= j < i ==> Some(object(#[trigger] workers@[j])) == json_object(replies@[j]@),
        decreases replies@.len() - i,
    {
        match read_object(&replies[i]) {
            Some(worker) => workers.push(worker),
            None => return Err(ReportError::NotJson(i)),
        }
        i = i + 1;
    }
    assert(reports(workers@) =~= read_reports(replies@)) by {
        assert forall|j: int| 0 <= j < replies@.len() implies reports(workers@)[j] == (
        #[trigger] read_reports(replies@)[j]) by {
            assert(Some(object(workers@[j])) == json_object(replies@[j]@));
        }
    }
    match merge_dataplane_metrics(&workers) {
        Ok(merged) => Ok(merged),
        Err(error) => Err(ReportError::Metrics(error)),
    }
}

/// Whether no two entries have the same name.
pub open spec fn distinct(all: Seq<MemberModel>) -> bool {
    forall|i: int, j: int|
        0 <= i < j < all.len() ==> (#[trigger] all[i]).name != (#[trigger] all[j]).name
}

proof fn lemma_entry_keeps_others(all: Seq<MemberModel>, entry: MemberModel, i: int)
    requires
        with_entry(all, entry) is Ok,
        0 <= i < all.len(),
    ensures
        with_entry(all, entry)->Ok_0.len() == all.len(),
        with_entry(all, entry)->Ok_0[i].name == all[i].name,
        all[i].name != entry.name ==> with_entry(all, entry)->Ok_0[i] == all[i],
{
    lemma_place(all, entry.name, 0);
}

proof fn lemma_worker_adds(
    all: Seq<MemberModel>,
    worker: Seq<MemberModel>,
    count: int,
    i: int,
)
    requires
        with_worker(all, worker, count) is Ok,
        distinct(all),
        distinct(worker),
        0 <= count <= worker.len(),
        0 <= i < all.len(),
    ensures
        ({
            let after = with_worker(all, worker, count)->Ok_0;
            &&& after.len() == all.len()
            &&& distinct(after)
            &&& forall|k: int| 0 <= k < all.len() ==> (#[trigger] after[k]).name == all[k].name
            &&& (forall|j: int| 0 <= j < count ==> (#[trigger] worker[j]).name != all[i].name)
                ==> after[i] == all[i]
            &&& forall|j: int|
                0 <= j < count && (#[trigger] worker[j]).name == all[i].name ==> if is_invariant(
                    all[i].name,
                ) {
                    after[i] == all[i] && same(all[i].value, worker[j].value)
                } else {
                    &&& all[i].value is Unsigned
                    &&& worker[j].value is Unsigned
                    &&& after[i].value == ValueModel::Unsigned(
                        total(
                            all[i].value->Unsigned_0,
                            worker[j].value->Unsigned_0,
                        ),
                    )
                }
        }),
    decreases count,
{
    if count > 0 {
        let before = with_worker(all, worker, count - 1)->Ok_0;
        let entry = worker[count - 1];
        let after = with_worker(all, worker, count)->Ok_0;
        lemma_worker_adds(all, worker, count - 1, i);
        lemma_entry_keeps_others(before, entry, i);
        assert forall|k: int| 0 <= k < all.len() implies (#[trigger] after[k]).name
            == all[k].name by {
            lemma_entry_keeps_others(before, entry, k);
            assert(before[k].name == all[k].name);
        }
        assert(distinct(after)) by {
            assert forall|a: int, b: int| 0 <= a < b < after.len() implies (
            #[trigger] after[a]).name != (#[trigger] after[b]).name by {
                assert(after[a].name == all[a].name && after[b].name == all[b].name);
            }
        }
        lemma_place(before, entry.name, 0);
        if entry.name == all[i].name {
            let at = place(before, entry.name, 0);
            assert(before[i].name == all[i].name);
            assert(at == i) by {
                if at < i {
                    assert(before[at].name != before[i].name);
                }
            }
            assert forall|j: int| 0 <= j < count - 1 implies (#[trigger] worker[j]).name
                != all[i].name by {
                assert(worker[j].name != worker[count - 1].name);
            }
        }
    }
}

/// Merging one worker's report keeps the names. A counter becomes the sum of
/// both, capped at the largest number; a shared setting stays, and was the same;
/// what the worker does not report stays.
pub proof fn law_worker_is_added(all: Seq<MemberModel>, worker: Seq<MemberModel>, i: int)
    requires
        with_worker(all, worker, worker.len() as int) is Ok,
        distinct(all),
        distinct(worker),
        0 <= i < all.len(),
    ensures
        ({
            let after = with_worker(all, worker, worker.len() as int)->Ok_0;
            &&& after.len() == all.len()
            &&& after[i].name == all[i].name
            &&& (forall|j: int|
                0 <= j < worker.len() ==> (#[trigger] worker[j]).name != all[i].name)
                ==> after[i] == all[i]
            &&& forall|j: int|
                0 <= j < worker.len() && (#[trigger] worker[j]).name == all[i].name
                    ==> if is_invariant(all[i].name) {
                    after[i] == all[i] && same(all[i].value, worker[j].value)
                } else {
                    after[i].value == ValueModel::Unsigned(
                        total(
                            all[i].value->Unsigned_0,
                            worker[j].value->Unsigned_0,
                        ),
                    )
                }
        }),
{
    lemma_worker_adds(all, worker, worker.len() as int, i);
}

/// The settings that all workers share are these three, and everything else is
/// a counter.
pub proof fn law_shared_settings_are_named(name: Seq<u8>)
    ensures
        tap_mtu_name().map_values(|b: u8| b as char) == "tap_mtu"@,
        tap_offload_name().map_values(|b: u8| b as char) == "tap_offload"@,
        tap_frame_capacity_name().map_values(|b: u8| b as char) == "tap_frame_capacity"@,
        workers_name().map_values(|b: u8| b as char) == "workers"@,
        is_invariant(name) <==> name == tap_mtu_name() || name == tap_offload_name() || name
            == tap_frame_capacity_name(),
{
    reveal_strlit("tap_mtu");
    reveal_strlit("tap_offload");
    reveal_strlit("tap_frame_capacity");
    reveal_strlit("workers");
    assert(tap_mtu_name().map_values(|b: u8| b as char) =~= "tap_mtu"@);
    assert(tap_offload_name().map_values(|b: u8| b as char) =~= "tap_offload"@);
    assert(tap_frame_capacity_name().map_values(|b: u8| b as char) =~= "tap_frame_capacity"@);
    assert(workers_name().map_values(|b: u8| b as char) =~= "workers"@);
}

/// Two counters together are their sum, or the largest number if that is less.
pub proof fn law_counters_add_up(left: u64, right: u64)
    ensures
        left + right <= u64::MAX ==> total(left, right) == left + right,
        left + right > u64::MAX ==> total(left, right) == u64::MAX,
        total(left, right) == total(right, left),
        total(left, 0) == left,
{
}

/// An entry that the first worker does not have is refused by its name, and so
/// is a shared setting that differs, or a counter that is no counter.
pub proof fn law_reports_must_agree(all: Seq<MemberModel>, entry: MemberModel, at: int)
    requires
        0 <= at < all.len(),
        all[at].name == entry.name,
        forall|i: int| 0 <= i < at ==> (#[trigger] all[i]).name != entry.name,
    ensures
        is_invariant(entry.name) && same(all[at].value, entry.value) ==> with_entry(all, entry)
            == Ok::<Seq<MemberModel>, FaultModel>(all),
        is_invariant(entry.name) && !same(all[at].value, entry.value) ==> with_entry(all, entry)
            == Err::<Seq<MemberModel>, FaultModel>(FaultModel::Differs(entry.name)),
        !is_invariant(entry.name) && all[at].value is Unsigned && entry.value is Unsigned ==> {
            let after = with_entry(all, entry);
            &&& after is Ok
            &&& after->Ok_0.len() == all.len()
            &&& after->Ok_0[at].name == entry.name
            &&& after->Ok_0[at].value is Unsigned
            &&& all[at].value->Unsigned_0 + entry.value->Unsigned_0 <= u64::MAX
                ==> after->Ok_0[at].value->Unsigned_0 == all[at].value->Unsigned_0
                + entry.value->Unsigned_0
            &&& forall|i: int| 0 <= i < all.len() && i != at ==> #[trigger] after->Ok_0[i] == all[i]
        },
        !is_invariant(entry.name) && !(all[at].value is Unsigned && entry.value is Unsigned)
            ==> with_entry(all, entry) == Err::<Seq<MemberModel>, FaultModel>(
            FaultModel::NotUnsigned(entry.name),
        ),
{
    crate::json::law_place_is_the_first(all, entry.name, 0, at);
}

/// An entry that is not among those of the first worker is refused.
pub proof fn law_unknown_entries_are_refused(all: Seq<MemberModel>, entry: MemberModel)
    requires
        forall|i: int| 0 <= i < all.len() ==> (#[trigger] all[i]).name != entry.name,
    ensures
        with_entry(all, entry) == Err::<Seq<MemberModel>, FaultModel>(
            FaultModel::Inconsistent(entry.name),
        ),
{
    crate::json::law_missing_name_has_no_place(all, entry.name, 0);
}

/// Without a report of the first worker there is none of them all; one worker's
/// report is the report; and a later worker that sends no object is refused.
pub proof fn law_first_report_is_the_base(workers: Seq<Option<Seq<MemberModel>>>, count: int)
    ensures
        workers.len() == 0 ==> with_workers(workers, 0) == Err::<Seq<MemberModel>, FaultModel>(
            FaultModel::Missing,
        ),
        workers.len() > 0 && workers[0] is None ==> with_workers(workers, 1) == Err::<
            Seq<MemberModel>,
            FaultModel,
        >(FaultModel::Missing),
        workers.len() > 0 && workers[0] is Some ==> with_workers(workers, 1) == Ok::<
            Seq<MemberModel>,
            FaultModel,
        >(workers[0]->0),
        1 <= count < workers.len() && with_workers(workers, count) is Ok && workers[count] is None
            ==> with_workers(workers, count + 1) == Err::<Seq<MemberModel>, FaultModel>(
            FaultModel::Invalid,
        ),
        1 <= count < workers.len() && with_workers(workers, count) is Err ==> with_workers(
            workers,
            count + 1,
        ) == with_workers(workers, count),
        1 <= count < workers.len() && with_workers(workers, count) is Ok && workers[count] is Some
            ==> with_workers(workers, count + 1) == with_worker(
            with_workers(workers, count)->Ok_0,
            workers[count]->0,
            workers[count]->0.len() as int,
        ),
{
}

/// The number of workers is told in the report: in its place if there is one,
/// otherwise at the end. Nothing else changes.
pub proof fn law_number_of_workers_is_told(all: Seq<MemberModel>, count: u64)
    ensures
        ({
            let after = with_count(all, count);
            &&& exists|i: int|
                0 <= i < after.len() && (#[trigger] after[i]).name == workers_name()
                    && after[i].value == ValueModel::Unsigned(count)
            &&& forall|i: int|
                0 <= i < all.len() && (#[trigger] all[i]).name != workers_name() ==> after[i]
                    == all[i]
            &&& after.len() <= all.len() + 1
        }),
{
    let after = with_count(all, count);
    let at = place(all, workers_name(), 0);
    lemma_place(all, workers_name(), 0);
    if at < all.len() {
        assert(after[at].name == workers_name());
    } else {
        assert(after[all.len() as int].name == workers_name());
    }
}

} // verus!
