//! The bytecode profiler: per-opcode time and count, or counts of adjacent
//! opcode pairs, fed once before each executed instruction.
use vstd::prelude::*;
use vstd::string::*;
use crate::opcode::{BcOpcode, OPCODE_COUNT};
use crate::order::{is_count_order, order_by_count};
use crate::text::{decimal, fixed_point, push_fixed_point, u64_to_string};

verus! {

/// `n`, or the largest `u64` where `n` is larger.
pub open spec fn saturate(n: int) -> u64 {
    if n > u64::MAX {
        u64::MAX
    } else if n < 0 {
        0
    } else {
        n as u64
    }
}

/// Time and count attributed to one opcode; the time is in nanoseconds.
#[derive(Clone, Copy, Debug, PartialEq, Eq, Structural)]
pub struct BcInstrStat {
    pub count: u64,
    pub total_time: u64,
}

pub open spec fn sum_counts(s: Seq<BcInstrStat>) -> int
    decreases s.len(),
{
    if s.len() == 0 {
        0
    } else {
        sum_counts(s.drop_last()) + s.last().count
    }
}

pub open spec fn sum_times(s: Seq<BcInstrStat>) -> int
    decreases s.len(),
{
    if s.len() == 0 {
        0
    } else {
        sum_times(s.drop_last()) + s.last().total_time
    }
}

pub open spec fn avg_time_spec(s: BcInstrStat) -> u64 {
    if s.count == 0 {
        0
    } else {
        (s.total_time / s.count) as u64
    }
}

impl BcInstrStat {
    /// The sums of the counts and of the times, each saturating at the
    /// largest `u64`.
    pub fn sum(stats: &Vec<BcInstrStat>) -> (r: BcInstrStat)
        ensures
            r.count == saturate(sum_counts(stats@)),
            r.total_time == saturate(sum_times(stats@)),
    {
        let mut count: u64 = 0;
        let mut total_time: u64 = 0;
        let mut k: usize = 0;
        while k < stats.len()
            invariant
                k <= stats@.len(),
                count == saturate(sum_counts(stats@.subrange(0, k as int))),
                total_time == saturate(sum_times(stats@.subrange(0, k as int))),
                sum_counts(stats@.subrange(0, k as int)) >= 0,
                sum_times(stats@.subrange(0, k as int)) >= 0,
            decreases stats@.len() - k,
        {
            assert(stats@.subrange(0, k + 1).drop_last() =~= stats@.subrange(0, k as int));
            count = count.saturating_add(stats[k].count);
            total_time = total_time.saturating_add(stats[k].total_time);
            k += 1;
        }
        assert(stats@.subrange(0, stats@.len() as int) =~= stats@);
        BcInstrStat { count, total_time }
    }

    /// The mean time per count, rounded down; zero where nothing was counted.
    pub fn avg_time(&self) -> (r: u64)
        ensures
            r == avg_time_spec(*self),
    {
        if self.count == 0 {
            0
        } else {
            self.total_time / self.count
        }
    }
}

// ---------------------------------------------------------------------------
// Per-opcode mode
// ---------------------------------------------------------------------------

/// Per-opcode data: the last opcode with the time it started, and what has
/// been attributed to each opcode, by its number.
pub struct BcProfileData {
    pub last: Option<(BcOpcode, u64)>,
    pub by_instr: Vec<BcInstrStat>,
}

/// One step of per-opcode profiling: the time from the previous call to
/// `now`, and one count, go to the previous opcode.
pub open spec fn bc_step(
    last: Option<(BcOpcode, u64)>,
    by_instr: Seq<BcInstrStat>,
    opcode: BcOpcode,
    now: u64,
) -> (Option<(BcOpcode, u64)>, Seq<BcInstrStat>) {
    match last {
        None => (Some((opcode, now)), by_instr),
        Some((lo, lt)) => {
            let i = lo.spec_number() as int;
            let st = by_instr[i];
            (
                Some((opcode, now)),
                by_instr.update(
                    i,
                    BcInstrStat {
                        count: saturate(st.count + 1),
                        total_time: saturate(st.total_time + saturate(now - lt)),
                    },
                ),
            )
        },
    }
}

/// The per-opcode data after the calls `ops` at times `times`, from fresh.
pub open spec fn bc_run(ops: Seq<BcOpcode>, times: Seq<u64>) -> (
    Option<(BcOpcode, u64)>,
    Seq<BcInstrStat>,
)
    decreases ops.len(),
{
    if ops.len() == 0 {
        (None, Seq::new(OPCODE_COUNT as nat, |i: int| BcInstrStat { count: 0, total_time: 0 }))
    } else {
        let prev = bc_run(ops.drop_last(), times);
        bc_step(prev.0, prev.1, ops.last(), times[ops.len() - 1])
    }
}

/// How many times `o` occurs in `s`.
pub open spec fn occurrences(s: Seq<BcOpcode>, o: BcOpcode) -> nat
    decreases s.len(),
{
    if s.len() == 0 {
        0
    } else {
        occurrences(s.drop_last(), o) + if s.last() == o {
            1nat
        } else {
            0nat
        }
    }
}

impl BcProfileData {
    pub open spec fn wf(&self) -> bool {
        self.by_instr@.len() == OPCODE_COUNT
    }

    /// No previous opcode and nothing attributed.
    pub fn new() -> (r: BcProfileData)
        ensures
            r.wf(),
            r.last is None,
            r.by_instr@ == bc_run(Seq::empty(), Seq::empty()).1,
    {
        let mut by_instr: Vec<BcInstrStat> = Vec::new();
        let mut k: usize = 0;
        while k < OPCODE_COUNT
            invariant
                k <= OPCODE_COUNT,
                by_instr@ == Seq::new(k as nat, |i: int| BcInstrStat { count: 0, total_time: 0 }),
            decreases OPCODE_COUNT - k,
        {
            by_instr.push(BcInstrStat { count: 0, total_time: 0 });
            assert(by_instr@ =~= Seq::new((k + 1) as nat, |i: int| BcInstrStat { count: 0, total_time: 0 }));
            k += 1;
        }
        BcProfileData { last: None, by_instr }
    }

    /// Records that `opcode` starts at time `now`, in nanoseconds, and
    /// attributes the time since the previous call, and one count, to the
    /// previous opcode. A clock that went back counts as no time.
    pub fn before_instr(&mut self, opcode: BcOpcode, now: u64)
        requires
            old(self).wf(),
        ensures
            final(self).wf(),
            (final(self).last, final(self).by_instr@) == bc_step(
                old(self).last,
                old(self).by_instr@,
                opcode,
                now,
            ),
    {
        if let Some((last_opcode, last_time)) = self.last {
            let i = last_opcode.number();
            let st = self.by_instr[i];
            let elapsed = now.saturating_sub(last_time);
            self.by_instr.set(
                i,
                BcInstrStat {
                    count: st.count.saturating_add(1),
                    total_time: st.total_time.saturating_add(elapsed),
                },
            );
        }
        self.last = Some((opcode, now));
    }
}

/// The line of a per-opcode report for one label and its statistics.
pub open spec fn stat_line(label: Seq<char>, st: BcInstrStat) -> Seq<char> {
    label + seq![','] + decimal(st.count as nat) + seq![','] + fixed_point(
        st.total_time as nat,
        9,
        1_000_000_000,
    ) + seq![','] + decimal(avg_time_spec(st) as nat) + seq!['\n']
}

/// The lines of the opcodes listed in `ord`, in that order.
pub open spec fn opcode_lines(by_instr: Seq<BcInstrStat>, ord: Seq<usize>, names: Seq<Seq<char>>) -> Seq<char>
    decreases ord.len(),
{
    if ord.len() == 0 {
        Seq::empty()
    } else {
        opcode_lines(by_instr, ord.drop_last(), names) + stat_line(
            names[ord.last() as int],
            by_instr[ord.last() as int],
        )
    }
}

/// The names of the opcodes, by number.
pub open spec fn opcode_names() -> Seq<Seq<char>> {
    Seq::new(
        OPCODE_COUNT as nat,
        |i: int|
            match BcOpcode::spec_by_number(i as nat) {
                Some(o) => o.spec_name(),
                None => Seq::empty(),
            },
    )
}

/// The counts of a sequence of statistics.
pub open spec fn counts_of(s: Seq<BcInstrStat>) -> Seq<u64> {
    s.map_values(|st: BcInstrStat| st.count)
}

pub open spec fn header_opcodes() -> Seq<char> {
    "Opcode,Count,Total time (s),Avg time (ns)\n"@
}

/// A per-opcode report: the header, the totals, then one line per opcode in
/// the order `ord`.
pub open spec fn opcode_report(by_instr: Seq<BcInstrStat>, ord: Seq<usize>) -> Seq<char> {
    let total = BcInstrStat {
        count: saturate(sum_counts(by_instr)),
        total_time: saturate(sum_times(by_instr)),
    };
    header_opcodes() + stat_line("TOTAL"@, total) + opcode_lines(by_instr, ord, opcode_names())
}

fn push_stat_line(out: &mut String, label: &str, st: BcInstrStat)
    ensures
        final(out)@ == old(out)@ + stat_line(label@, st),
{
    proof {
        reveal_strlit(",");
        reveal_strlit("\n");
    }
    out.append(label);
    out.append(",");
    let c = u64_to_string(st.count);
    out.append(c.as_str());
    out.append(",");
    push_fixed_point(out, st.total_time, 9, 1_000_000_000);
    out.append(",");
    let a = u64_to_string(st.avg_time());
    out.append(a.as_str());
    out.append("\n");
    assert(final(out)@ =~= old(out)@ + stat_line(label@, st));
}

impl BcProfileData {
    /// The report: a header, a `TOTAL` line, then one line per opcode by
    /// descending count, ties in opcode order.
    pub fn gen_csv(&self) -> (r: String)
        requires
            self.wf(),
        ensures
            exists|ord: Seq<usize>|
                is_count_order(counts_of(self.by_instr@), ord) && r@ == opcode_report(
                    self.by_instr@,
                    ord,
                ),
    {
        let mut counts: Vec<u64> = Vec::new();
        let mut k: usize = 0;
        while k < self.by_instr.len()
            invariant
                k <= self.by_instr@.len(),
                counts@ == counts_of(self.by_instr@.subrange(0, k as int)),
            decreases self.by_instr@.len() - k,
        {
            counts.push(self.by_instr[k].count);
            assert(counts@ =~= counts_of(self.by_instr@.subrange(0, k + 1)));
            k += 1;
        }
        assert(self.by_instr@.subrange(0, self.by_instr@.len() as int) =~= self.by_instr@);
        let ord = order_by_count(&counts);
        let total = BcInstrStat::sum(&self.by_instr);
        let mut csv = String::from_str("Opcode,Count,Total time (s),Avg time (ns)\n");
        push_stat_line(&mut csv, "TOTAL", total);
        let mut j: usize = 0;
        while j < ord.len()
            invariant
                self.wf(),
                is_count_order(counts_of(self.by_instr@), ord@),
                j <= ord@.len(),
                csv@ == header_opcodes() + stat_line("TOTAL"@, total) + opcode_lines(
                    self.by_instr@,
                    ord@.subrange(0, j as int),
                    opcode_names(),
                ),
            decreases ord@.len() - j,
        {
            let i = ord[j];
            assert(i < OPCODE_COUNT);
            let o = BcOpcode::by_number(i).unwrap();
            push_stat_line(&mut csv, o.name(), self.by_instr[i]);
            assert(ord@.subrange(0, j + 1).drop_last() =~= ord@.subrange(0, j as int));
            j += 1;
        }
        assert(ord@.subrange(0, ord@.len() as int) =~= ord@);
        assert(is_count_order(counts_of(self.by_instr@), ord@) && csv@ == opcode_report(
            self.by_instr@,
            ord@,
        ));
        csv
    }
}

// ---------------------------------------------------------------------------
// Per-pair mode
// ---------------------------------------------------------------------------

/// The number of ordered opcode pairs.
pub const PAIR_COUNT: usize = 169;

/// The position of the pair `(a, b)` among all pairs, in their natural
/// order.
pub open spec fn pair_index(a: BcOpcode, b: BcOpcode) -> int {
    a.spec_number() * OPCODE_COUNT + b.spec_number()
}

/// Per-pair data: the last opcode, and the count of each ordered pair of
/// adjacent opcodes, by `pair_index`.
pub struct BcPairsProfileData {
    pub last: Option<BcOpcode>,
    pub by_instr: Vec<u64>,
}

/// One step of per-pair profiling: the pair of the previous opcode and this
/// one is counted once more.
pub open spec fn pairs_step(last: Option<BcOpcode>, by_instr: Seq<u64>, opcode: BcOpcode) -> (
    Option<BcOpcode>,
    Seq<u64>,
) {
    match last {
        None => (Some(opcode), by_instr),
        Some(lo) => {
            let i = pair_index(lo, opcode);
            (Some(opcode), by_instr.update(i, saturate(by_instr[i] + 1)))
        },
    }
}

/// The per-pair data after the calls `ops`, from fresh.
pub open spec fn pairs_run(ops: Seq<BcOpcode>) -> (Option<BcOpcode>, Seq<u64>)
    decreases ops.len(),
{
    if ops.len() == 0 {
        (None, Seq::new(PAIR_COUNT as nat, |i: int| 0u64))
    } else {
        let prev = pairs_run(ops.drop_last());
        pairs_step(prev.0, prev.1, ops.last())
    }
}

/// How many times `b` directly follows `a` in `s`.
pub open spec fn pair_occurrences(s: Seq<BcOpcode>, a: BcOpcode, b: BcOpcode) -> nat
    decreases s.len(),
{
    if s.len() < 2 {
        0
    } else {
        pair_occurrences(s.drop_last(), a, b) + if s[s.len() - 2] == a && s.last() == b {
            1nat
        } else {
            0nat
        }
    }
}

pub open spec fn sum_u64(s: Seq<u64>) -> int
    decreases s.len(),
{
    if s.len() == 0 {
        0
    } else {
        sum_u64(s.drop_last()) + s.last()
    }
}

proof fn lemma_sum_u64_bounds(s: Seq<u64>, x: int)
    requires
        0 <= x < s.len(),
    ensures
        s[x] <= sum_u64(s),
        sum_u64(s) >= 0,
    decreases s.len(),
{
    lemma_sum_u64_nonneg(s.drop_last());
    if x < s.len() - 1 {
        assert(s.drop_last()[x] == s[x]);
        lemma_sum_u64_bounds(s.drop_last(), x);
    }
}

proof fn lemma_sum_u64_nonneg(s: Seq<u64>)
    ensures
        sum_u64(s) >= 0,
    decreases s.len(),
{
    if s.len() > 0 {
        lemma_sum_u64_nonneg(s.drop_last());
    }
}

/// `count / total` in thousandths, rounded half up.
pub open spec fn per_mille(count: int, total: int) -> nat {
    ((2000 * count + total) / (2 * total)) as nat
}

pub open spec fn header_pairs() -> Seq<char> {
    "Opcode[0],Opcode[1],Count,Count / Total\n"@
}

/// The line of a per-pair report for the pair at `i`.
pub open spec fn pair_line(i: int, count: u64, total: int) -> Seq<char> {
    let names = opcode_names();
    names[i / OPCODE_COUNT as int] + seq![','] + names[i % OPCODE_COUNT as int] + seq![',']
        + decimal(count as nat) + seq![','] + fixed_point(per_mille(count as int, total), 3, 1000)
        + seq!['\n']
}

/// The lines of the pairs listed in `ord` that were seen, in that order.
pub open spec fn pair_lines(by_instr: Seq<u64>, ord: Seq<usize>, total: int) -> Seq<char>
    decreases ord.len(),
{
    if ord.len() == 0 {
        Seq::empty()
    } else {
        let i = ord.last() as int;
        pair_lines(by_instr, ord.drop_last(), total) + if by_instr[i] == 0 {
            Seq::empty()
        } else {
            pair_line(i, by_instr[i], total)
        }
    }
}

/// A per-pair report: the header, then one line per pair seen, by
/// descending count, ties in the pairs' natural order.
pub open spec fn pairs_report(by_instr: Seq<u64>, ord: Seq<usize>) -> Seq<char> {
    header_pairs() + pair_lines(by_instr, ord, sum_u64(by_instr))
}

fn push_pair_line(out: &mut String, i: usize, count: u64, total: u128)
    requires
        i < PAIR_COUNT,
        0 < count <= total <= PAIR_COUNT * 18446744073709551615,
    ensures
        final(out)@ == old(out)@ + pair_line(i as int, count, total as int),
{
    proof {
        reveal_strlit(",");
        reveal_strlit("\n");
    }
    let a = BcOpcode::by_number(i / OPCODE_COUNT).unwrap();
    let b = BcOpcode::by_number(i % OPCODE_COUNT).unwrap();
    out.append(a.name());
    out.append(",");
    out.append(b.name());
    out.append(",");
    let c = u64_to_string(count);
    out.append(c.as_str());
    out.append(",");
    let q128 = (2000 * (count as u128) + total) / (2 * total);
    assert(q128 <= 1000) by (nonlinear_arith)
        requires
            q128 == (2000 * (count as int) + total) / (2 * total),
            0 < count <= total,
    ;
    let q = q128 as u64;
    push_fixed_point(out, q, 3, 1000);
    out.append("\n");
    assert(final(out)@ =~= old(out)@ + pair_line(i as int, count, total as int));
}

impl BcPairsProfileData {
    pub open spec fn wf(&self) -> bool {
        self.by_instr@.len() == PAIR_COUNT
    }

    /// No previous opcode and no pair counted.
    pub fn new() -> (r: BcPairsProfileData)
        ensures
            r.wf(),
            r.last is None,
            r.by_instr@ == pairs_run(Seq::empty()).1,
    {
        let mut by_instr: Vec<u64> = Vec::new();
        let mut k: usize = 0;
        while k < PAIR_COUNT
            invariant
                k <= PAIR_COUNT,
                by_instr@ == Seq::new(k as nat, |i: int| 0u64),
            decreases PAIR_COUNT - k,
        {
            by_instr.push(0);
            assert(by_instr@ =~= Seq::new((k + 1) as nat, |i: int| 0u64));
            k += 1;
        }
        BcPairsProfileData { last: None, by_instr }
    }

    /// Counts the pair of the previous opcode and `opcode`, and records
    /// `opcode` as the previous one.
    pub fn before_instr(&mut self, opcode: BcOpcode)
        requires
            old(self).wf(),
        ensures
            final(self).wf(),
            (final(self).last, final(self).by_instr@) == pairs_step(
                old(self).last,
                old(self).by_instr@,
                opcode,
            ),
    {
        if let Some(last_opcode) = self.last {
            let i = last_opcode.number() * OPCODE_COUNT + opcode.number();
            let c = self.by_instr[i];
            self.by_instr.set(i, c.saturating_add(1));
        }
        self.last = Some(opcode);
    }

    /// The report: a header, then one line per pair seen, by descending
    /// count, ties in the pairs' natural order, each with its share of all
    /// counted pairs to three places.
    pub fn gen_csv(&self) -> (r: String)
        requires
            self.wf(),
        ensures
            exists|ord: Seq<usize>|
                is_count_order(self.by_instr@, ord) && r@ == pairs_report(self.by_instr@, ord),
    {
        let mut total: u128 = 0;
        let mut k: usize = 0;
        while k < self.by_instr.len()
            invariant
                self.wf(),
                k <= self.by_instr@.len(),
                total == sum_u64(self.by_instr@.subrange(0, k as int)),
                total <= k * 18446744073709551615,
            decreases self.by_instr@.len() - k,
        {
            assert(self.by_instr@.subrange(0, k + 1).drop_last() =~= self.by_instr@.subrange(
                0,
                k as int,
            ));
            total = total + self.by_instr[k] as u128;
            k += 1;
        }
        assert(self.by_instr@.subrange(0, self.by_instr@.len() as int) =~= self.by_instr@);
        assert forall|x: int| 0 <= x < self.by_instr@.len() implies self.by_instr@[x] <= total by {
            lemma_sum_u64_bounds(self.by_instr@, x);
        }
        let ord = order_by_count(&self.by_instr);
        let mut csv = String::from_str("Opcode[0],Opcode[1],Count,Count / Total\n");
        let mut j: usize = 0;
        while j < ord.len()
            invariant
                self.wf(),
                is_count_order(self.by_instr@, ord@),
                j <= ord@.len(),
                total == sum_u64(self.by_instr@),
                total <= PAIR_COUNT * 18446744073709551615,
                forall|x: int| 0 <= x < self.by_instr@.len() ==> self.by_instr@[x] <= total,
                csv@ == header_pairs() + pair_lines(
                    self.by_instr@,
                    ord@.subrange(0, j as int),
                    total as int,
                ),
            decreases ord@.len() - j,
        {
            let i = ord[j];
            assert(i < PAIR_COUNT);
            let count = self.by_instr[i];
            if count != 0 {
                push_pair_line(&mut csv, i, count, total);
            }
            assert(ord@.subrange(0, j + 1).drop_last() =~= ord@.subrange(0, j as int));
            j += 1;
        }
        assert(ord@.subrange(0, ord@.len() as int) =~= ord@);
        assert(is_count_order(self.by_instr@, ord@) && csv@ == pairs_report(self.by_instr@, ord@));
        csv
    }
}

// ---------------------------------------------------------------------------
// The profiling session
// ---------------------------------------------------------------------------

/// Why a report could not be made.
#[derive(Clone, Copy, Debug, PartialEq, Eq, Structural)]
pub enum ProfileError {
    BcProfilingNotEnabled,
}

impl ProfileError {
    /// The text shown to the user.
    pub fn message(&self) -> &'static str {
        match self {
            ProfileError::BcProfilingNotEnabled => "Bytecode profiling is not enabled",
        }
    }
}

/// The mode of a profiling session with its data.
pub enum BcProfileDataMode {
    Bc(Box<BcProfileData>),
    BcPairs(Box<BcPairsProfileData>),
    Disabled,
}

/// A bytecode profiling session.
pub struct BcProfile {
    pub data: BcProfileDataMode,
}

impl BcProfile {
    pub open spec fn wf(&self) -> bool {
        match self.data {
            BcProfileDataMode::Bc(d) => d.wf(),
            BcProfileDataMode::BcPairs(d) => d.wf(),
            BcProfileDataMode::Disabled => true,
        }
    }

    pub open spec fn spec_enabled(&self) -> bool {
        !(self.data is Disabled)
    }

    /// A disabled session.
    pub fn new() -> (r: BcProfile)
        ensures
            r.wf(),
            r.data is Disabled,
    {
        BcProfile { data: BcProfileDataMode::Disabled }
    }

    /// Starts per-opcode profiling, discarding earlier data.
    pub fn enable_1(&mut self)
        ensures
            final(self).wf(),
            final(self).data matches BcProfileDataMode::Bc(d) && d.last is None && d.by_instr@
                == bc_run(Seq::empty(), Seq::empty()).1,
    {
        self.data = BcProfileDataMode::Bc(Box::new(BcProfileData::new()));
    }

    /// Starts per-pair profiling, discarding earlier data.
    pub fn enable_2(&mut self)
        ensures
            final(self).wf(),
            final(self).data matches BcProfileDataMode::BcPairs(d) && d.last is None
                && d.by_instr@ == pairs_run(Seq::empty()).1,
    {
        self.data = BcProfileDataMode::BcPairs(Box::new(BcPairsProfileData::new()));
    }

    /// Whether a mode is on.
    pub fn enabled(&self) -> (r: bool)
        ensures
            r == self.spec_enabled(),
    {
        match self.data {
            BcProfileDataMode::Bc(..) => true,
            BcProfileDataMode::BcPairs(..) => true,
            BcProfileDataMode::Disabled => false,
        }
    }

    /// The report of the session's mode; an error when no mode is on.
    pub fn gen_csv(&self) -> (r: Result<String, ProfileError>)
        requires
            self.wf(),
        ensures
            r is Err <==> self.data is Disabled,
            r is Err ==> r == Err::<String, ProfileError>(ProfileError::BcProfilingNotEnabled),
            self.data matches BcProfileDataMode::Bc(d) ==> exists|ord: Seq<usize>|
                is_count_order(counts_of(d.by_instr@), ord) && r->Ok_0@ == opcode_report(
                    d.by_instr@,
                    ord,
                ),
            self.data matches BcProfileDataMode::BcPairs(d) ==> exists|ord: Seq<usize>|
                is_count_order(d.by_instr@, ord) && r->Ok_0@ == pairs_report(d.by_instr@, ord),
    {
        match &self.data {
            BcProfileDataMode::Bc(data) => Ok(data.gen_csv()),
            BcProfileDataMode::BcPairs(data) => Ok(data.gen_csv()),
            BcProfileDataMode::Disabled => Err(ProfileError::BcProfilingNotEnabled),
        }
    }

    /// Called before each executed instruction, with the time in
    /// nanoseconds.
    pub fn before_instr(&mut self, opcode: BcOpcode, now: u64)
        requires
            old(self).wf(),
            old(self).spec_enabled(),
        ensures
            final(self).wf(),
            old(self).data matches BcProfileDataMode::Bc(d) ==> final(self).data matches BcProfileDataMode::Bc(
                e,
            ) && (e.last, e.by_instr@) == bc_step(d.last, d.by_instr@, opcode, now),
            old(self).data matches BcProfileDataMode::BcPairs(d) ==> final(self).data matches BcProfileDataMode::BcPairs(
                e,
            ) && (e.last, e.by_instr@) == pairs_step(d.last, d.by_instr@, opcode),
    {
        match &mut self.data {
            BcProfileDataMode::Bc(data) => data.before_instr(opcode, now),
            BcProfileDataMode::BcPairs(data) => data.before_instr(opcode),
            BcProfileDataMode::Disabled => {},
        }
    }
}

// ---------------------------------------------------------------------------
// What a run of calls records
// ---------------------------------------------------------------------------

proof fn lemma_sum_counts_update(s: Seq<BcInstrStat>, i: int, st: BcInstrStat)
    requires
        0 <= i < s.len(),
    ensures
        sum_counts(s.update(i, st)) == sum_counts(s) - s[i].count + st.count,
    decreases s.len(),
{
    if i < s.len() - 1 {
        assert(s.update(i, st).drop_last() =~= s.drop_last().update(i, st));
        lemma_sum_counts_update(s.drop_last(), i, st);
    } else {
        assert(s.update(i, st).drop_last() =~= s.drop_last());
    }
}

proof fn lemma_sum_counts_zero(n: nat)
    ensures
        sum_counts(Seq::new(n, |i: int| BcInstrStat { count: 0, total_time: 0 })) == 0,
    decreases n,
{
    if n > 0 {
        assert(Seq::new(n, |i: int| BcInstrStat { count: 0, total_time: 0 }).drop_last()
            =~= Seq::new((n - 1) as nat, |i: int| BcInstrStat { count: 0, total_time: 0 }));
        lemma_sum_counts_zero((n - 1) as nat);
    }
}

/// Per-opcode profiling over calls `ops` at times `times` attributes to each
/// opcode one count for each of its calls but the last call of all (a count
/// stops at the largest `u64`), so `n` calls record `n - 1` samples; and the
/// last call is the one pending.
pub proof fn lemma_bc_run_counts(ops: Seq<BcOpcode>, times: Seq<u64>)
    requires
        ops.len() <= times.len(),
    ensures
        bc_run(ops, times).1.len() == OPCODE_COUNT,
        forall|o: BcOpcode|
            (#[trigger] bc_run(ops, times).1[o.spec_number() as int]).count == (if ops.len() == 0 {
                0
            } else {
                saturate(occurrences(ops.drop_last(), o) as int)
            }),
        ops.len() <= u64::MAX ==> sum_counts(bc_run(ops, times).1) == if ops.len() == 0 {
            0
        } else {
            ops.len() - 1
        },
        ops.len() > 0 ==> bc_run(ops, times).0 == Some((ops.last(), times[ops.len() - 1])),
    decreases ops.len(),
{
    if ops.len() == 0 {
        lemma_sum_counts_zero(OPCODE_COUNT as nat);
    } else {
        let prev_ops = ops.drop_last();
        lemma_bc_run_counts(prev_ops, times);
        let prev = bc_run(prev_ops, times);
        if prev_ops.len() > 0 {
            let lo = prev_ops.last();
            let i = lo.spec_number() as int;
            let st = prev.1[i];
            assert(prev_ops.drop_last() == ops.drop_last().drop_last());
            assert(st.count == saturate(occurrences(prev_ops.drop_last(), lo) as int));
            lemma_occurrences_bound(prev_ops.drop_last(), lo);
            let last_t: u64 = match prev.0 {
                Some((_, t)) => t,
                None => 0,
            };
            let new_st = BcInstrStat {
                count: saturate(st.count + 1),
                total_time: saturate(st.total_time + saturate(times[ops.len() - 1] - last_t)),
            };
            lemma_sum_counts_update(prev.1, i, new_st);
            assert forall|o: BcOpcode|
                (#[trigger] bc_run(ops, times).1[o.spec_number() as int]).count == saturate(
                    occurrences(ops.drop_last(), o) as int,
                ) by {
                assert(prev.1[o.spec_number() as int].count == saturate(
                    occurrences(prev_ops.drop_last(), o) as int,
                ));
                if o != lo {
                    assert(o.spec_number() != lo.spec_number());
                }
            }
        } else {
            assert forall|o: BcOpcode|
                (#[trigger] bc_run(ops, times).1[o.spec_number() as int]).count == saturate(
                    occurrences(ops.drop_last(), o) as int,
                ) by {
                assert(ops.drop_last().len() == 0);
            }
        }
    }
}

proof fn lemma_occurrences_bound(s: Seq<BcOpcode>, o: BcOpcode)
    ensures
        occurrences(s, o) <= s.len(),
    decreases s.len(),
{
    if s.len() > 0 {
        lemma_occurrences_bound(s.drop_last(), o);
    }
}

proof fn lemma_pair_occurrences_bound(s: Seq<BcOpcode>, a: BcOpcode, b: BcOpcode)
    ensures
        pair_occurrences(s, a, b) <= s.len(),
    decreases s.len(),
{
    if s.len() >= 2 {
        lemma_pair_occurrences_bound(s.drop_last(), a, b);
    }
}

/// Per-pair profiling over calls `ops` counts each ordered pair `(a, b)`
/// exactly as often as `b` directly follows `a` in `ops`.
pub proof fn lemma_pairs_run_counts(ops: Seq<BcOpcode>)
    requires
        ops.len() < u64::MAX,
    ensures
        pairs_run(ops).1.len() == PAIR_COUNT,
        forall|a: BcOpcode, b: BcOpcode|
            #[trigger] pairs_run(ops).1[pair_index(a, b)] == pair_occurrences(ops, a, b),
        ops.len() > 0 ==> pairs_run(ops).0 == Some(ops.last()),
        ops.len() == 0 ==> pairs_run(ops).0 is None,
    decreases ops.len(),
{
    if ops.len() > 0 {
        let prev_ops = ops.drop_last();
        lemma_pairs_run_counts(prev_ops);
        let prev = pairs_run(prev_ops);
        assert forall|a: BcOpcode, b: BcOpcode|
            #[trigger] pairs_run(ops).1[pair_index(a, b)] == pair_occurrences(ops, a, b) by {
            assert(prev.1[pair_index(a, b)] == pair_occurrences(prev_ops, a, b));
            if ops.len() >= 2 {
                let lo = prev_ops.last();
                assert(lo == ops[ops.len() - 2]);
                lemma_pair_occurrences_bound(prev_ops, lo, ops.last());
                if pair_index(lo, ops.last()) == pair_index(a, b) {
                    assert(lo.spec_number() == a.spec_number());
                    assert(ops.last().spec_number() == b.spec_number());
                }
            }
        }
    }
}

} // verus!
