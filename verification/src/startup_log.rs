//! Aggregation of the per-file load statistics into a report.
//!
//! The statistics are reporting-only: they are produced once per processed
//! file during the build and never retained in the cache. This module
//! totals them; rendering the report is left to the caller.

use vstd::prelude::*;

verus! {

/// What the loader records about one processed file.
pub struct FileLoadStats {
    pub name: String,
    pub original_size: usize,
    pub final_size: usize,
    pub is_compressed: bool,
}

/// The sum of the original sizes of the given statistics.
pub open spec fn spec_total_original(stats: Seq<FileLoadStats>) -> int
    decreases stats.len(),
{
    if stats.len() == 0 {
        0
    } else {
        spec_total_original(stats.drop_last()) + stats.last().original_size
    }
}

/// The sum of the final (possibly compressed) sizes of the given statistics.
pub open spec fn spec_total_final(stats: Seq<FileLoadStats>) -> int
    decreases stats.len(),
{
    if stats.len() == 0 {
        0
    } else {
        spec_total_final(stats.drop_last()) + stats.last().final_size
    }
}

/// How many of the given statistics belong to compressed files.
pub open spec fn spec_num_compressed(stats: Seq<FileLoadStats>) -> int
    decreases stats.len(),
{
    if stats.len() == 0 {
        0
    } else {
        spec_num_compressed(stats.drop_last()) + if stats.last().is_compressed {
            1int
        } else {
            0int
        }
    }
}

/// The totals of a load: file count, compressed count, and the sizes
/// before and after compression.
pub struct LoadReport {
    pub total_files: usize,
    pub num_compressed: usize,
    pub total_original_size: usize,
    pub total_final_size: usize,
}

proof fn lemma_prefix_totals(stats: Seq<FileLoadStats>, i: int)
    requires
        0 <= i <= stats.len(),
    ensures
        spec_total_original(stats.take(i)) <= spec_total_original(stats),
        spec_total_final(stats.take(i)) <= spec_total_final(stats),
        spec_num_compressed(stats.take(i)) <= spec_num_compressed(stats),
        0 <= spec_num_compressed(stats.take(i)),
    decreases stats.len() - i,
{
    if i == stats.len() {
        assert(stats.take(i) =~= stats);
        lemma_num_compressed_bounds(stats);
    } else {
        lemma_prefix_totals(stats, i + 1);
        assert(stats.take(i + 1).drop_last() =~= stats.take(i));
        assert(stats.take(i + 1).last() == stats[i]);
        lemma_num_compressed_bounds(stats.take(i));
    }
}

proof fn lemma_num_compressed_bounds(stats: Seq<FileLoadStats>)
    ensures
        0 <= spec_num_compressed(stats) <= stats.len(),
        0 <= spec_total_original(stats),
        0 <= spec_total_final(stats),
    decreases stats.len(),
{
    if stats.len() > 0 {
        lemma_num_compressed_bounds(stats.drop_last());
    }
}

/// Totals the per-file statistics of a finished load. The caller formats
/// and prints the returned report.
pub fn print_load_stats(stats: &Vec<FileLoadStats>) -> (r: LoadReport)
    requires
        spec_total_original(stats@) <= usize::MAX,
        spec_total_final(stats@) <= usize::MAX,
    ensures
        r.total_files == stats@.len(),
        r.num_compressed == spec_num_compressed(stats@),
        r.total_original_size == spec_total_original(stats@),
        r.total_final_size == spec_total_final(stats@),
{
    let mut total_original: usize = 0;
    let mut total_final: usize = 0;
    let mut num_compressed: usize = 0;
    let n = stats.len();
    let mut i: usize = 0;
    proof {
        assert(stats@.take(0) =~= Seq::<FileLoadStats>::empty());
    }
    while i < n
        invariant
            n == stats@.len(),
            0 <= i <= n,
            spec_total_original(stats@) <= usize::MAX,
            spec_total_final(stats@) <= usize::MAX,
            total_original == spec_total_original(stats@.take(i as int)),
            total_final == spec_total_final(stats@.take(i as int)),
            num_compressed == spec_num_compressed(stats@.take(i as int)),
        decreases n - i,
    {
        proof {
            lemma_prefix_totals(stats@, i + 1);
            lemma_num_compressed_bounds(stats@.take(i as int));
            assert(stats@.take(i + 1).drop_last() =~= stats@.take(i as int));
            assert(stats@.take(i + 1).last() == stats@[i as int]);
        }
        let stat = &stats[i];
        total_original = total_original + stat.original_size;
        total_final = total_final + stat.final_size;
        if stat.is_compressed {
            num_compressed = num_compressed + 1;
        }
        i = i + 1;
    }
    proof {
        assert(stats@.take(n as int) =~= stats@);
    }
    LoadReport {
        total_files: n,
        num_compressed,
        total_original_size: total_original,
        total_final_size: total_final,
    }
}

} // verus!
