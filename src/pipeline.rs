//! A run's ingestion: round files to per-metric series and the reference table.
use vstd::prelude::*;
use crate::normalize::{NormalizeError, ReferenceTable};
use crate::round_name::{name_timestamp, round_timestamp, TimestampFormatError};
use crate::order::{chronological_order, is_chronological};
use crate::series::{
    aggregate, lemma_add_all_concat, points_of, round_items, Aggregator, Point, RawSample, SeriesView,
};

verus! {

/// What a run does with a file whose contents do not decode.
#[derive(Clone, Copy, Debug, PartialEq, Eq, Structural)]
pub enum DecodePolicy {
    /// The run ends with an error at the first such file.
    FailFast,
    /// The file is left out and the run goes on.
    SkipInvalid,
}

/// One round file: its name, and its samples where its contents decoded.
#[derive(Clone, Debug)]
pub struct RoundFile {
    pub name: Vec<u8>,
    pub samples: Option<Vec<RawSample>>,
}

/// Why a run stops; `file` is the position of the offending file.
#[derive(Clone, Copy, Debug, PartialEq, Eq, Structural)]
pub enum RunError {
    Decode { file: usize },
    Timestamp { file: usize, error: TimestampFormatError },
    MissingReferenceMetric,
}

/// What one file gives a run.
pub enum FileOutcome {
    Skipped,
    Failed(RunError),
    Round(i64, Seq<RawSample>),
}

pub open spec fn file_outcome(f: RoundFile, i: int, policy: DecodePolicy) -> FileOutcome {
    match f.samples {
        None => match policy {
            DecodePolicy::FailFast => FileOutcome::Failed(RunError::Decode { file: i as usize }),
            DecodePolicy::SkipInvalid => FileOutcome::Skipped,
        },
        Some(v) => match name_timestamp(f.name@) {
            Err(e) => FileOutcome::Failed(RunError::Timestamp { file: i as usize, error: e }),
            Ok(t) => FileOutcome::Round(t, v@),
        },
    }
}

/// A file that gave samples: its instant and its position.
#[derive(Clone, Copy, Debug, PartialEq, Eq, Structural)]
pub struct Round {
    pub time: i64,
    pub file: usize,
}

/// The rounds of the files, in file order, or the error of the first file
/// that fails.
pub open spec fn rounds_of(files: Seq<RoundFile>, policy: DecodePolicy) -> Result<Seq<Round>, RunError>
    decreases files.len(),
{
    if files.len() == 0 {
        Ok(seq![])
    } else {
        match rounds_of(files.drop_last(), policy) {
            Err(e) => Err(e),
            Ok(rs) => match file_outcome(files.last(), files.len() - 1, policy) {
                FileOutcome::Skipped => Ok(rs),
                FileOutcome::Failed(e) => Err(e),
                FileOutcome::Round(t, _) => Ok(rs.push(Round { time: t, file: (files.len() - 1) as usize })),
            },
        }
    }
}

pub open spec fn round_times(rs: Seq<Round>) -> Seq<i64> {
    rs.map_values(|r: Round| r.time)
}

/// The named points that a round contributes.
pub open spec fn round_points(files: Seq<RoundFile>, r: Round) -> Seq<(Seq<char>, Point)> {
    round_items(r.time, files[r.file as int].samples->Some_0@)
}

/// The named points of the rounds, taken in the given order.
pub open spec fn items_in_order(files: Seq<RoundFile>, rs: Seq<Round>, order: Seq<usize>) -> Seq<
    (Seq<char>, Point),
>
    decreases order.len(),
{
    if order.len() == 0 {
        seq![]
    } else {
        items_in_order(files, rs, order.drop_last()) + round_points(files, rs[order.last() as int])
    }
}

/// `s` is what the files' rounds build when added earliest first, rounds of
/// one instant in file order.
pub open spec fn chronological_series(files: Seq<RoundFile>, policy: DecodePolicy, s: SeriesView) -> bool {
    let rs = rounds_of(files, policy)->Ok_0;
    exists|order: Seq<usize>|
        is_chronological(round_times(rs), order) && s == aggregate(items_in_order(files, rs, order))
}

fn read_rounds(files: &Vec<RoundFile>, policy: DecodePolicy) -> (r: Result<Vec<Round>, RunError>)
    ensures
        r matches Ok(v) ==> rounds_of(files@, policy) == Ok::<_, RunError>(v@),
        r matches Ok(v) ==> forall|q: int| 0 <= q < v@.len() ==> (#[trigger] v@[q]).file < files@.len()
            && files@[v@[q].file as int].samples is Some,
        r matches Err(e) ==> rounds_of(files@, policy) == Err::<Seq<Round>, _>(e),
{
    let mut rounds: Vec<Round> = Vec::new();
    let mut i: usize = 0;
    while i < files.len()
        invariant
            i <= files@.len(),
            rounds_of(files@.take(i as int), policy) == Ok::<_, RunError>(rounds@),
            forall|q: int| 0 <= q < rounds@.len() ==> (#[trigger] rounds@[q]).file < i
                && files@[rounds@[q].file as int].samples is Some,
        decreases files@.len() - i,
    {
        proof {
            assert(files@.take(i + 1).drop_last() =~= files@.take(i as int));
            assert(files@.take(i + 1).last() == files@[i as int]);
        }
        let f = &files[i];
        match &f.samples {
            None => {
                match policy {
                    DecodePolicy::FailFast => {
                        proof {
                            lemma_error_persists(files@, policy, i + 1);
                        }
                        return Err(RunError::Decode { file: i });
                    },
                    DecodePolicy::SkipInvalid => {},
                }
            },
            Some(_) => {
                match round_timestamp(f.name.as_slice()) {
                    Err(e) => {
                        proof {
                            lemma_error_persists(files@, policy, i + 1);
                        }
                        return Err(RunError::Timestamp { file: i, error: e });
                    },
                    Ok(t) => {
                        rounds.push(Round { time: t, file: i });
                    },
                }
            },
        }
        i = i + 1;
    }
    assert(files@.take(i as int) =~= files@);
    Ok(rounds)
}

proof fn lemma_error_persists(files: Seq<RoundFile>, policy: DecodePolicy, n: int)
    requires
        0 <= n <= files.len(),
        rounds_of(files.take(n), policy) is Err,
    ensures
        rounds_of(files, policy) == rounds_of(files.take(n), policy),
    decreases files.len() - n,
{
    if n < files.len() {
        assert(files.take(n + 1).drop_last() =~= files.take(n));
        lemma_error_persists(files, policy, n + 1);
    } else {
        assert(files.take(n) =~= files);
    }
}

/// Reads every file, then adds the rounds' samples to per-metric series
/// earliest round first.
pub fn ingest(files: &Vec<RoundFile>, policy: DecodePolicy) -> (r: Result<Aggregator, RunError>)
    ensures
        rounds_of(files@, policy) matches Err(e) ==> r == Err::<Aggregator, _>(e),
        rounds_of(files@, policy) is Ok ==> (r matches Ok(a) && a.wf() && chronological_series(
            files@,
            policy,
            a@,
        )),
{
    let rounds = match read_rounds(files, policy) {
        Ok(v) => v,
        Err(e) => return Err(e),
    };
    let mut times: Vec<i64> = Vec::new();
    let mut i: usize = 0;
    while i < rounds.len()
        invariant
            i <= rounds@.len(),
            times@ == round_times(rounds@.take(i as int)),
        decreases rounds@.len() - i,
    {
        times.push(rounds[i].time);
        i = i + 1;
        assert(times@ =~= round_times(rounds@.take(i as int)));
    }
    assert(rounds@.take(i as int) =~= rounds@);
    let order = chronological_order(&times);
    let mut agg = Aggregator::new();
    let mut k: usize = 0;
    while k < order.len()
        invariant
            k <= order@.len(),
            is_chronological(times@, order@),
            times@ == round_times(rounds@),
            forall|q: int| 0 <= q < rounds@.len() ==> (#[trigger] rounds@[q]).file < files@.len()
                && files@[rounds@[q].file as int].samples is Some,
            agg.wf(),
            agg@ == aggregate(items_in_order(files@, rounds@, order@.take(k as int))),
        decreases order@.len() - k,
    {
        let rd = rounds[order[k]];
        proof {
            assert(order@.take(k + 1).drop_last() =~= order@.take(k as int));
            lemma_add_all_concat(
                seq![],
                items_in_order(files@, rounds@, order@.take(k as int)),
                round_points(files@, rd),
            );
        }
        match &files[rd.file].samples {
            Some(samples) => {
                agg.add_round(rd.time, samples);
            },
            None => {},
        }
        k = k + 1;
    }
    assert(order@.take(k as int) =~= order@);
    assert(rounds_of(files@, policy)->Ok_0 == rounds@);
    assert(is_chronological(round_times(rounds@), order@)
        && agg@ == aggregate(items_in_order(files@, rounds@, order@)));
    Ok(agg)
}

/// Ingests the files and builds the reference table of the metric
/// `reference`. The error where that metric has no points in the series
/// that the files build.
pub fn prepare(files: &Vec<RoundFile>, policy: DecodePolicy, reference: &String) -> (r: Result<
    (Aggregator, ReferenceTable),
    RunError,
>)
    ensures
        rounds_of(files@, policy) matches Err(e) ==> r == Err::<(Aggregator, ReferenceTable), _>(e),
        r matches Ok(p) ==> p.0.wf() && chronological_series(files@, policy, p.0@) && p.1.wf() && p.1@
            == points_of(p.0@, reference@),
        rounds_of(files@, policy) is Ok ==> (r is Ok || (r == Err::<(Aggregator, ReferenceTable), _>(
            RunError::MissingReferenceMetric,
        ) && exists|s: SeriesView|
            chronological_series(files@, policy, s) && points_of(s, reference@).len() == 0)),
{
    let agg = match ingest(files, policy) {
        Ok(a) => a,
        Err(e) => return Err(e),
    };
    match ReferenceTable::build(&agg, reference) {
        Ok(t) => Ok((agg, t)),
        Err(NormalizeError::MissingReferenceMetric) => Err(RunError::MissingReferenceMetric),
    }
}

} // verus!
