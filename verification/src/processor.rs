//! The file processor and the orchestrator's aggregation: one input file's
//! lines stream through the pipeline in order, blank and malformed lines are
//! skipped without failing the file, and each admitted record is re-encoded
//! as one output line. Per-file outcomes are aggregated into run totals.

use vstd::prelude::*;
use crate::codec::{blank, decode, is_blank, json_enc, json_sig, json_wf};
use crate::dedup::digest_of;
use crate::filters::FilterKind;
use crate::pipeline::{pipeline_admits, pipeline_next, Pipeline};

verus! {

/// The configuration surface the run consumes: the input root, the output
/// root, and the worker-pool size, where zero means all available parallelism.
pub struct ProcessorConfig {
    pub input_path: String,
    pub output_path: String,
    pub threads: usize,
}

/// Whether one line yields an admitted record against the given pipeline
/// state: it is not blank, it decodes, and its record survives the pipeline.
pub open spec fn line_admitted(
    filters: Seq<FilterKind>,
    dedup: Option<Set<Seq<u8>>>,
    line: Seq<char>,
) -> bool {
    &&& !blank(line)
    &&& json_wf(line)
    &&& pipeline_admits(filters, dedup, line)
}

/// The pipeline state after one line; only a line that decodes reaches the
/// pipeline at all.
pub open spec fn line_next(
    filters: Seq<FilterKind>,
    dedup: Option<Set<Seq<u8>>>,
    line: Seq<char>,
) -> Option<Set<Seq<u8>>> {
    if !blank(line) && json_wf(line) {
        pipeline_next(filters, dedup, line)
    } else {
        dedup
    }
}

/// The run of one file's lines through the pipeline, in order: the final
/// deduplication state, and the source lines of the admitted records.
pub open spec fn sift_lines(
    filters: Seq<FilterKind>,
    dedup: Option<Set<Seq<u8>>>,
    lines: Seq<Seq<char>>,
) -> (Option<Set<Seq<u8>>>, Seq<Seq<char>>)
    decreases lines.len(),
{
    if lines.len() == 0 {
        (dedup, Seq::empty())
    } else {
        let first = lines[0];
        let rest = sift_lines(filters, line_next(filters, dedup, first), lines.drop_first());
        if line_admitted(filters, dedup, first) {
            (rest.0, seq![first] + rest.1)
        } else {
            rest
        }
    }
}

/// Stream one file's lines through the pipeline: blank lines are skipped
/// upstream of decoding, malformed lines are skipped without failing the file,
/// and every admitted record is re-encoded, in input order. The returned
/// vector holds the file's output lines; its length is the admitted count.
pub fn process_lines(pipeline: &mut Pipeline, lines: &Vec<String>) -> (out: Vec<String>)
    ensures
        final(pipeline).filters_view() == old(pipeline).filters_view(),
        ({
            let run = sift_lines(
                old(pipeline).filters_view(),
                old(pipeline).dedup_view(),
                lines@.map_values(|s: String| s@),
            );
            &&& final(pipeline).dedup_view() == run.0
            &&& out@.map_values(|s: String| s@) == run.1.map_values(|l: Seq<char>| json_enc(l))
        }),
{
    let ghost filters0 = pipeline.filters_view();
    let ghost lseq = lines@.map_values(|s: String| s@);
    let ghost run_full = sift_lines(filters0, pipeline.dedup_view(), lseq);
    let mut out: Vec<String> = Vec::new();
    let ghost mut admitted: Seq<Seq<char>> = Seq::empty();
    proof {
        assert(lseq.skip(0) =~= lseq);
        assert(admitted + run_full.1 =~= run_full.1);
    }
    let n = lines.len();
    let mut i: usize = 0;
    while i < n
        invariant
            n == lines.len(),
            0 <= i <= n,
            lseq == lines@.map_values(|s: String| s@),
            pipeline.filters_view() == filters0,
            run_full == ({
                let rest = sift_lines(filters0, pipeline.dedup_view(), lseq.skip(i as int));
                (rest.0, admitted + rest.1)
            }),
            out@.map_values(|s: String| s@) == admitted.map_values(|l: Seq<char>| json_enc(l)),
        decreases n - i,
    {
        let line = &lines[i];
        proof {
            assert(lseq[i as int] == line@);
            assert(lseq.skip(i as int)[0] == lseq[i as int]);
            assert(lseq.skip(i as int).drop_first() =~= lseq.skip(i as int + 1));
        }
        let ghost dedup_i = pipeline.dedup_view();
        let ghost rest_next = sift_lines(filters0, line_next(filters0, dedup_i, line@), lseq.skip(
            i as int + 1,
        ));
        if !is_blank(line.as_str()) {
            match decode(line.as_str()) {
                Some(rec) => {
                    let keep = pipeline.process(&rec);
                    if keep {
                        let ghost prev_out = out@;
                        let ghost prev_adm = admitted;
                        let enc = rec.encode();
                        out.push(enc);
                        proof {
                            assert(line_admitted(filters0, dedup_i, line@));
                            admitted = prev_adm + seq![line@];
                            assert(prev_adm + (seq![line@] + rest_next.1) =~= admitted
                                + rest_next.1);
                            assert(admitted =~= prev_adm.push(line@));
                            prev_out.lemma_push_map_commute(|s: String| s@, enc);
                            prev_adm.lemma_push_map_commute(|l: Seq<char>| json_enc(l), line@);
                            assert(out@.map_values(|s: String| s@) == prev_out.map_values(
                                |s: String| s@,
                            ).push(enc@));
                            assert(admitted.map_values(|l: Seq<char>| json_enc(l))
                                == prev_adm.map_values(|l: Seq<char>| json_enc(l)).push(
                                json_enc(line@),
                            ));
                        }
                    } else {
                        proof {
                            assert(!line_admitted(filters0, dedup_i, line@));
                        }
                    }
                },
                None => {
                    proof {
                        assert(!json_wf(line@));
                        assert(!line_admitted(filters0, dedup_i, line@));
                        assert(line_next(filters0, dedup_i, line@) == dedup_i);
                    }
                },
            }
        } else {
            proof {
                assert(blank(line@));
                assert(!line_admitted(filters0, dedup_i, line@));
                assert(line_next(filters0, dedup_i, line@) == dedup_i);
            }
        }
        i += 1;
    }
    proof {
        assert(lseq.skip(n as int) =~= Seq::<Seq<char>>::empty());
        assert(admitted + Seq::<Seq<char>>::empty() =~= admitted);
    }
    out
}

/// The run of many files, in order, through one shared deduplication state:
/// the final state, and per file the source lines of its admitted records.
pub open spec fn sift_files(
    filters: Seq<FilterKind>,
    dedup: Option<Set<Seq<u8>>>,
    files: Seq<Seq<Seq<char>>>,
) -> (Option<Set<Seq<u8>>>, Seq<Seq<Seq<char>>>)
    decreases files.len(),
{
    if files.len() == 0 {
        (dedup, Seq::empty())
    } else {
        let first = sift_lines(filters, dedup, files[0]);
        let rest = sift_files(filters, first.0, files.drop_first());
        (rest.0, seq![first.1] + rest.1)
    }
}

/// Every admitted line carries an identity whose digest lies outside the
/// seen-set the run started from and inside the one it ended with.
pub open spec fn digests_between(
    out: Seq<Seq<char>>,
    before: Set<Seq<u8>>,
    after: Set<Seq<u8>>,
) -> bool {
    forall|k: int|
        0 <= k < out.len() ==> {
            let sig = json_sig(#[trigger] out[k]);
            &&& sig is Some
            &&& !before.contains(digest_of(sig->Some_0))
            &&& after.contains(digest_of(sig->Some_0))
        }
}

/// No two admitted lines carry identities with the same digest.
pub open spec fn digests_distinct(out: Seq<Seq<char>>) -> bool {
    forall|k1: int, k2: int|
        0 <= k1 < k2 < out.len() ==> digest_of(json_sig(#[trigger] out[k1])->Some_0) != digest_of(
            json_sig(#[trigger] out[k2])->Some_0,
        )
}

/// What one file's run guarantees when a deduplication engine is installed:
/// the seen-set only grows, every admitted record's identity digest was free
/// before the run and is held afterwards, and no two admitted records of the
/// file share a digest.
pub proof fn lemma_sift_lines_claims(
    filters: Seq<FilterKind>,
    seen: Set<Seq<u8>>,
    lines: Seq<Seq<char>>,
)
    ensures
        ({
            let run = sift_lines(filters, Some(seen), lines);
            &&& run.0 is Some
            &&& seen.subset_of(run.0->Some_0)
            &&& digests_between(run.1, seen, run.0->Some_0)
            &&& digests_distinct(run.1)
        }),
    decreases lines.len(),
{
    let run = sift_lines(filters, Some(seen), lines);
    if lines.len() == 0 {
        assert(seen.subset_of(seen));
    } else {
        let l = lines[0];
        let next = line_next(filters, Some(seen), l);
        assert(next is Some);
        let seen1 = next->Some_0;
        assert(seen.subset_of(seen1));
        lemma_sift_lines_claims(filters, seen1, lines.drop_first());
        let rest = sift_lines(filters, next, lines.drop_first());
        let fin = rest.0->Some_0;
        assert(seen1.subset_of(fin));
        if line_admitted(filters, Some(seen), l) {
            let d = digest_of(json_sig(l)->Some_0);
            assert(seen1 == seen.insert(d));
            assert(run.1 == seq![l] + rest.1);
            assert(run.1[0] == l);
            assert forall|k: int| 1 <= k < run.1.len() implies #[trigger] run.1[k] == rest.1[k
                - 1] by {}
            assert(digests_between(run.1, seen, fin));
            assert forall|k1: int, k2: int| 0 <= k1 < k2 < run.1.len() implies digest_of(
                json_sig(#[trigger] run.1[k1])->Some_0,
            ) != digest_of(json_sig(#[trigger] run.1[k2])->Some_0) by {
                if k1 == 0 {
                    assert(run.1[k2] == rest.1[k2 - 1]);
                    assert(!seen1.contains(digest_of(json_sig(rest.1[k2 - 1])->Some_0)));
                    assert(seen1.contains(d));
                }
            }
        } else {
            assert(run == rest);
        }
    }
}

/// What a whole run over many files guarantees when a deduplication engine is
/// installed: per file what one file's run guarantees, and across any two
/// files no two admitted records share an identity digest.
pub proof fn lemma_sift_files_claims(
    filters: Seq<FilterKind>,
    seen: Set<Seq<u8>>,
    files: Seq<Seq<Seq<char>>>,
)
    ensures
        ({
            let run = sift_files(filters, Some(seen), files);
            &&& run.0 is Some
            &&& seen.subset_of(run.0->Some_0)
            &&& run.1.len() == files.len()
            &&& forall|f: int|
                0 <= f < files.len() ==> digests_between(#[trigger] run.1[f], seen, run.0->Some_0)
            &&& forall|f: int| 0 <= f < files.len() ==> digests_distinct(#[trigger] run.1[f])
            &&& forall|fa: int, ka: int, fb: int, kb: int|
                0 <= fa < fb < files.len() && 0 <= ka < run.1[fa].len() && 0 <= kb
                    < run.1[fb].len() ==> digest_of(
                    json_sig(#[trigger] run.1[fa][ka])->Some_0,
                ) != digest_of(json_sig(#[trigger] run.1[fb][kb])->Some_0)
        }),
    decreases files.len(),
{
    let run = sift_files(filters, Some(seen), files);
    if files.len() == 0 {
        assert(seen.subset_of(seen));
    } else {
        let first = sift_lines(filters, Some(seen), files[0]);
        lemma_sift_lines_claims(filters, seen, files[0]);
        let seen1 = first.0->Some_0;
        lemma_sift_files_claims(filters, seen1, files.drop_first());
        let rest = sift_files(filters, first.0, files.drop_first());
        let fin = rest.0->Some_0;
        assert(run.1[0] == first.1);
        assert forall|f: int| 1 <= f < run.1.len() implies #[trigger] run.1[f] == rest.1[f
            - 1] by {}
        assert forall|f: int| 0 <= f < files.len() implies digests_between(
            #[trigger] run.1[f],
            seen,
            fin,
        ) by {
            if f == 0 {
                assert(digests_between(first.1, seen, seen1));
                assert(seen1.subset_of(fin));
            } else {
                assert(digests_between(rest.1[f - 1], seen1, fin));
                assert(seen.subset_of(seen1));
            }
        }
        assert forall|fa: int, ka: int, fb: int, kb: int|
            0 <= fa < fb < files.len() && 0 <= ka < run.1[fa].len() && 0 <= kb
                < run.1[fb].len() implies digest_of(
            json_sig(#[trigger] run.1[fa][ka])->Some_0,
        ) != digest_of(json_sig(#[trigger] run.1[fb][kb])->Some_0) by {
            if fa == 0 {
                assert(seen1.contains(digest_of(json_sig(run.1[fa][ka])->Some_0)));
                assert(run.1[fb] == rest.1[fb - 1]);
                assert(!seen1.contains(digest_of(json_sig(rest.1[fb - 1][kb])->Some_0)));
            } else {
                assert(run.1[fa] == rest.1[fa - 1]);
                assert(run.1[fb] == rest.1[fb - 1]);
            }
        }
    }
}

/// Global uniqueness: across all the files of one run that share one
/// deduplication engine, at most one admitted record carries any given
/// identity — whether the two candidate positions lie in one output file or
/// in two different ones.
pub proof fn lemma_global_uniqueness(
    filters: Seq<FilterKind>,
    seen: Set<Seq<u8>>,
    files: Seq<Seq<Seq<char>>>,
    f1: int,
    i1: int,
    f2: int,
    i2: int,
    ident: Seq<char>,
)
    requires
        0 <= f1 < files.len(),
        0 <= f2 < files.len(),
        0 <= i1 < sift_files(filters, Some(seen), files).1[f1].len(),
        0 <= i2 < sift_files(filters, Some(seen), files).1[f2].len(),
        !(f1 == f2 && i1 == i2),
        json_sig(sift_files(filters, Some(seen), files).1[f1][i1]) == Some(ident),
    ensures
        json_sig(sift_files(filters, Some(seen), files).1[f2][i2]) != Some(ident),
{
    lemma_sift_files_claims(filters, seen, files);
    let outs = sift_files(filters, Some(seen), files).1;
    if json_sig(outs[f2][i2]) == Some(ident) {
        assert(digest_of(json_sig(outs[f1][i1])->Some_0) == digest_of(
            json_sig(outs[f2][i2])->Some_0,
        ));
        if f1 == f2 {
            assert(digests_distinct(outs[f1]));
            if i1 < i2 {
                assert(digest_of(json_sig(outs[f1][i1])->Some_0) != digest_of(
                    json_sig(outs[f1][i2])->Some_0,
                ));
            } else {
                assert(digest_of(json_sig(outs[f1][i2])->Some_0) != digest_of(
                    json_sig(outs[f1][i1])->Some_0,
                ));
            }
        }
        assert(false);
    }
}

/// `a` can be had from `b` by deleting elements, keeping the order of the rest.
pub open spec fn subsequence_of(a: Seq<Seq<char>>, b: Seq<Seq<char>>) -> bool
    decreases a.len() + b.len(),
{
    if a.len() == 0 {
        true
    } else if b.len() == 0 {
        false
    } else {
        (a[0] == b[0] && subsequence_of(a.drop_first(), b.drop_first())) || subsequence_of(
            a,
            b.drop_first(),
        )
    }
}

/// The lines of a file that decode to a record: not blank, and well formed.
pub open spec fn decodable_of(lines: Seq<Seq<char>>) -> Seq<Seq<char>>
    decreases lines.len(),
{
    if lines.len() == 0 {
        Seq::empty()
    } else if !blank(lines[0]) && json_wf(lines[0]) {
        seq![lines[0]] + decodable_of(lines.drop_first())
    } else {
        decodable_of(lines.drop_first())
    }
}

/// Order preservation: the admitted records of one file, in output order, form
/// a subsequence of the file's decodable records, in input order.
pub proof fn lemma_order_preservation(
    filters: Seq<FilterKind>,
    dedup: Option<Set<Seq<u8>>>,
    lines: Seq<Seq<char>>,
)
    ensures
        subsequence_of(sift_lines(filters, dedup, lines).1, decodable_of(lines)),
    decreases lines.len(),
{
    if lines.len() > 0 {
        let l = lines[0];
        let next = line_next(filters, dedup, l);
        lemma_order_preservation(filters, next, lines.drop_first());
        let rest = sift_lines(filters, next, lines.drop_first());
        let rest_dec = decodable_of(lines.drop_first());
        if line_admitted(filters, dedup, l) {
            let a = seq![l] + rest.1;
            let b = seq![l] + rest_dec;
            assert(a[0] == b[0]);
            assert(a.drop_first() =~= rest.1);
            assert(b.drop_first() =~= rest_dec);
            assert(subsequence_of(a, b));
        } else if !blank(l) && json_wf(l) {
            let b = seq![l] + rest_dec;
            assert(b.drop_first() =~= rest_dec);
            if rest.1.len() > 0 {
                assert(subsequence_of(rest.1, b));
            }
        }
    }
}

/// A subsequence is never longer than the sequence it was taken from.
proof fn lemma_subsequence_len(a: Seq<Seq<char>>, b: Seq<Seq<char>>)
    requires
        subsequence_of(a, b),
    ensures
        a.len() <= b.len(),
    decreases a.len() + b.len(),
{
    if a.len() > 0 {
        if a[0] == b[0] && subsequence_of(a.drop_first(), b.drop_first()) {
            lemma_subsequence_len(a.drop_first(), b.drop_first());
        } else {
            lemma_subsequence_len(a, b.drop_first());
        }
    }
}

/// Malformed-line tolerance: however many malformed or blank lines stand
/// between a file's decodable lines, the file yields at most as many admitted
/// records as it has decodable lines, and its run always completes.
pub proof fn lemma_malformed_tolerance(
    filters: Seq<FilterKind>,
    dedup: Option<Set<Seq<u8>>>,
    lines: Seq<Seq<char>>,
)
    ensures
        sift_lines(filters, dedup, lines).1.len() <= decodable_of(lines).len(),
{
    lemma_order_preservation(filters, dedup, lines);
    lemma_subsequence_len(sift_lines(filters, dedup, lines).1, decodable_of(lines));
}

/// The reported outcome of one file: a count of admitted records and, when the
/// file failed, its failure cause.
pub struct FileOutcome {
    pub admitted: u64,
    pub error: Option<String>,
}

/// The sum of the per-file admitted counts.
pub open spec fn spec_total(outcomes: Seq<FileOutcome>) -> int
    decreases outcomes.len(),
{
    if outcomes.len() == 0 {
        0
    } else {
        spec_total(outcomes.drop_last()) + outcomes.last().admitted
    }
}

/// Aggregate the per-file outcomes into the run's total count of admitted
/// records, saturating at the counter's width.
pub fn total_admitted(outcomes: &Vec<FileOutcome>) -> (r: u64)
    ensures
        r == if spec_total(outcomes@) <= u64::MAX {
            spec_total(outcomes@)
        } else {
            u64::MAX as int
        },
{
    let mut acc: u64 = 0;
    let mut i: usize = 0;
    while i < outcomes.len()
        invariant
            0 <= i <= outcomes@.len(),
            acc == if spec_total(outcomes@.take(i as int)) <= u64::MAX {
                spec_total(outcomes@.take(i as int))
            } else {
                u64::MAX as int
            },
        decreases outcomes@.len() - i,
    {
        proof {
            assert(outcomes@.take(i as int + 1).drop_last() =~= outcomes@.take(i as int));
            assert(outcomes@.take(i as int + 1).last() == outcomes@[i as int]);
        }
        let x = outcomes[i].admitted;
        if acc > u64::MAX - x {
            acc = u64::MAX;
        } else {
            acc = acc + x;
        }
        i += 1;
    }
    proof {
        assert(outcomes@.take(outcomes@.len() as int) =~= outcomes@);
    }
    acc
}

} // verus!
