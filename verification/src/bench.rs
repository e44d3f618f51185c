//! Benchmark results and how they are reported: one CSV row per workload,
//! timed by the median of the measured samples.
use vstd::prelude::*;
use crate::text::{decimal, push_decimal, push_decimal_u128, push_str, string_from_chars};

verus! {

/// How many timed samples each benchmark takes.
pub const MEASURED_SAMPLES: usize = 5;

/// How a workload is run: from source each time, or prepared once and then
/// entered or called.
#[derive(Debug, Clone, Copy, PartialEq, Eq, Structural)]
pub enum BenchmarkMode {
    Cold,
    CachedEntry,
    WarmEntry,
    WarmHandler,
}

/// The name of a mode in the CSV report.
pub open spec fn mode_name(mode: BenchmarkMode) -> Seq<char> {
    match mode {
        BenchmarkMode::Cold => "cold"@,
        BenchmarkMode::CachedEntry => "cached-entry"@,
        BenchmarkMode::WarmEntry => "warm-entry"@,
        BenchmarkMode::WarmHandler => "warm-handler"@,
    }
}

impl BenchmarkMode {
    /// The name of the mode in the CSV report.
    pub fn as_str(self) -> (name: &'static str)
        ensures
            name@ == mode_name(self),
    {
        match self {
            BenchmarkMode::Cold => "cold",
            BenchmarkMode::CachedEntry => "cached-entry",
            BenchmarkMode::WarmEntry => "warm-entry",
            BenchmarkMode::WarmHandler => "warm-handler",
        }
    }
}

/// The outcome of one benchmark; `median_elapsed` is the median time of a
/// sample, in nanoseconds.
#[derive(Debug, Clone, PartialEq, Eq)]
pub struct BenchmarkResult {
    pub name: String,
    pub mode: BenchmarkMode,
    pub iterations: usize,
    pub median_elapsed: u128,
    pub console_values: usize,
}

/// The CSV row of a result: name, mode, iterations, median time in whole
/// microseconds, and console values.
pub open spec fn csv_row_of(result: BenchmarkResult) -> Seq<char> {
    result.name@ + ","@ + mode_name(result.mode) + ","@ + decimal(result.iterations as nat) + ","@ + decimal(
        (result.median_elapsed / 1000) as nat,
    ) + ","@ + decimal(result.console_values as nat)
}

impl BenchmarkResult {
    /// The CSV row of this result, in the columns of `csv_header`.
    pub fn csv_row(&self) -> (row: String)
        ensures
            row@ == csv_row_of(*self),
    {
        let mut out: Vec<char> = Vec::new();
        push_str(&mut out, self.name.as_str());
        push_str(&mut out, ",");
        push_str(&mut out, self.mode.as_str());
        push_str(&mut out, ",");
        push_decimal(&mut out, self.iterations);
        push_str(&mut out, ",");
        push_decimal_u128(&mut out, self.median_elapsed / 1000);
        push_str(&mut out, ",");
        push_decimal(&mut out, self.console_values);
        string_from_chars(out)
    }
}

/// The header row of the CSV report.
pub fn csv_header() -> (header: &'static str)
    ensures
        header@ == "name,mode,iterations,median_elapsed_micros,console_values"@,
{
    "name,mode,iterations,median_elapsed_micros,console_values"
}

/// Whether `s` is in ascending order.
pub open spec fn ascending(s: Seq<u128>) -> bool {
    forall|i: int, j: int| 0 <= i <= j < s.len() ==> s[i] <= s[j]
}

/// `samples` in ascending order (`slice::sort_unstable`): the same values,
/// as many times each, ascending.
#[verifier::external_body]
fn sort_samples(samples: &mut Vec<u128>)
    ensures
        ascending(final(samples)@),
        final(samples)@.to_multiset() == old(samples)@.to_multiset(),
{
    samples.sort_unstable();
}

/// The middle sample in ascending order (the upper middle of an even count).
pub fn median_duration(samples: Vec<u128>) -> (median: u128)
    requires
        samples@.len() > 0,
    ensures
        exists|sorted: Seq<u128>|
            ascending(sorted) && sorted.to_multiset() == samples@.to_multiset() && sorted.len() == samples@.len()
                && median == sorted[(samples@.len() / 2) as int],
{
    let mut samples = samples;
    let ghost original = samples@;
    sort_samples(&mut samples);
    proof {
        samples@.to_multiset_ensures();
        original.to_multiset_ensures();
        assert(samples@.len() == original.len());
    }
    let middle = samples.len() / 2;
    samples[middle]
}

} // verus!
