//! The pattern detector: spikes, bursts, recurring and increasing messages
//! and messages that dominate the error volume, computed in exact integer
//! arithmetic from the aggregator's trend data.
use vstd::prelude::*;
use vstd::string::StringExecFns;
use crate::state::{sorted_entries, sorted_listing, AnalysisState};
use crate::table::KeyedTable;
use crate::text::{chars_of, char_width_exec, lemma_utf8_len_step, push_decimal, utf8_len};

verus! {

/// How urgent a detected pattern is.
#[derive(Clone, Copy, Debug, PartialEq, Eq, Structural)]
pub enum Severity {
    Critical,
    Warning,
    Info,
}

/// The kind of a detected pattern.
#[derive(Clone, Copy, Debug, PartialEq, Eq, Structural)]
pub enum PatternType {
    /// sudden increase in frequency
    Spike,
    /// occurrences concentrated in a short time
    Burst,
    /// consistent appearance over time
    Recurring,
    /// rate growing over time
    Increasing,
    /// dominates the error log
    HighVolume,
}

impl PatternType {
    pub open spec fn label_spec(&self) -> Seq<char> {
        match self {
            PatternType::Spike => "Spike"@,
            PatternType::Burst => "Burst"@,
            PatternType::Recurring => "Recurring"@,
            PatternType::Increasing => "Increasing"@,
            PatternType::HighVolume => "High Volume"@,
        }
    }

    /// The display name of the kind.
    pub fn label(&self) -> (r: &'static str)
        ensures
            r@ == self.label_spec(),
    {
        match self {
            PatternType::Spike => "Spike",
            PatternType::Burst => "Burst",
            PatternType::Recurring => "Recurring",
            PatternType::Increasing => "Increasing",
            PatternType::HighVolume => "High Volume",
        }
    }

    pub open spec fn icon_spec(&self) -> Seq<char> {
        match self {
            PatternType::Spike => "\u{1F4C8}"@,
            PatternType::Burst => "\u{1F4A5}"@,
            PatternType::Recurring => "\u{1F504}"@,
            PatternType::Increasing => "\u{1F4CA}"@,
            PatternType::HighVolume => "\u{1F525}"@,
        }
    }

    /// The icon shown beside the kind.
    pub fn icon(&self) -> (r: &'static str)
        ensures
            r@ == self.icon_spec(),
    {
        match self {
            PatternType::Spike => "\u{1F4C8}",
            PatternType::Burst => "\u{1F4A5}",
            PatternType::Recurring => "\u{1F504}",
            PatternType::Increasing => "\u{1F4CA}",
            PatternType::HighVolume => "\u{1F525}",
        }
    }
}

/// One detected pattern.
#[derive(Debug)]
pub struct PatternInfo {
    pub pattern_type: PatternType,
    pub message: String,
    pub description: String,
    pub severity: Severity,
    pub count: usize,
    pub details: Option<String>,
}

/// The rank of a severity: Critical first.
pub open spec fn severity_rank(s: Severity) -> nat {
    match s {
        Severity::Critical => 0,
        Severity::Warning => 1,
        Severity::Info => 2,
    }
}

pub fn severity_order(s: Severity) -> (r: usize)
    ensures
        r == severity_rank(s),
{
    match s {
        Severity::Critical => 0,
        Severity::Warning => 1,
        Severity::Info => 2,
    }
}

/// The number of leading characters of `m`, counting from `i`, whose UTF-8
/// encoding fits in `max_len` bytes.
pub open spec fn fit_count(m: Seq<char>, max_len: nat, i: nat) -> nat
    decreases m.len() - i,
{
    if i < m.len() && utf8_len(m.take(i + 1 as int)) <= max_len {
        fit_count(m, max_len, (i + 1) as nat)
    } else {
        i
    }
}

/// The display form of a message: unchanged where its UTF-8 encoding fits in
/// `max_len` bytes; else the longest prefix that fits, followed by `...`.
pub open spec fn truncated(m: Seq<char>, max_len: nat) -> Seq<char> {
    if utf8_len(m) <= max_len {
        m
    } else {
        m.take(fit_count(m, max_len, 0) as int) + "..."@
    }
}

pub fn truncate_msg(msg: &str, max_len: usize) -> (r: String)
    ensures
        r@ == truncated(msg@, max_len as nat),
        utf8_len(msg@) > max_len ==> utf8_len(msg@.take(fit_count(msg@, max_len as nat, 0) as int))
            <= max_len,
{
    let cs = chars_of(msg);
    let mut out = String::new();
    let mut bytes: usize = 0;
    let mut i: usize = 0;
    assert(cs@.take(0) =~= Seq::<char>::empty());
    assert(vstd::utf8::encode_utf8(Seq::<char>::empty()) =~= Seq::<u8>::empty());
    while i < cs.len() && char_width_exec(cs[i]) <= max_len - bytes
        invariant
            i <= cs@.len(),
            cs@ == msg@,
            out@ == cs@.take(i as int),
            bytes == utf8_len(cs@.take(i as int)),
            bytes <= max_len,
            fit_count(cs@, max_len as nat, 0) == fit_count(cs@, max_len as nat, i as nat),
        decreases cs.len() - i,
    {
        proof {
            lemma_utf8_len_step(cs@, i as int);
        }
        out.append(char_str(cs[i]).as_str());
        assert(cs@.take(i + 1) =~= cs@.take(i as int) + seq![cs@[i as int]]);
        bytes = bytes + char_width_exec(cs[i]);
        i = i + 1;
    }
    if i == cs.len() {
        assert(cs@.take(i as int) =~= cs@);
        return msg.to_owned();
    }
    proof {
        lemma_utf8_len_step(cs@, i as int);
        assert(cs@ =~= cs@.take(i + 1) + cs@.skip(i + 1));
        crate::text::lemma_encode_concat(cs@.take(i + 1), cs@.skip(i + 1));
    }
    out.append("...");
    out
}

/// Relies on `char::to_string`: the string of one character.
#[verifier::external_body]
fn char_str(c: char) -> (r: String)
    ensures
        r@ == seq![c],
{
    c.to_string()
}

/// The sum of a sequence of counts.
pub open spec fn seq_sum(s: Seq<usize>) -> int
    decreases s.len(),
{
    if s.len() == 0 {
        0
    } else {
        seq_sum(s.drop_last()) + s.last()
    }
}

/// The largest count, 0 for none.
pub open spec fn seq_max(s: Seq<usize>) -> int
    decreases s.len(),
{
    if s.len() == 0 {
        0
    } else if seq_max(s.drop_last()) >= s.last() {
        seq_max(s.drop_last())
    } else {
        s.last() as int
    }
}

/// A message active in `active` of `buckets` buckets, with `peak` in its
/// busiest one and `total` in all, spikes: its peak exceeds three times its
/// average over every bucket of the series, and is at least 3.
pub open spec fn is_spike(total: int, active: int, peak: int, buckets: int) -> bool {
    active >= 2 && peak * buckets > 3 * total && peak >= 3
}

/// It bursts: at least 5 occurrences in at most 5 buckets, under 30% of the series.
pub open spec fn is_burst(total: int, active: int, buckets: int) -> bool {
    total >= 5 && 10 * active < 3 * buckets && active <= 5
}

/// It recurs: at least 5 occurrences over more than 40% of the series, in at
/// least 3 buckets.
pub open spec fn is_recurring(total: int, active: int, buckets: int) -> bool {
    total >= 5 && 10 * active > 4 * buckets && active >= 3
}

/// It increases: in at least 4 buckets, the later half of its buckets (in
/// time order) holds more than twice the earlier half, and at least 5.
pub open spec fn is_increasing(counts: Seq<usize>) -> bool {
    let mid = counts.len() / 2;
    counts.len() >= 4 && seq_sum(counts.skip(mid as int)) > 2 * seq_sum(counts.take(mid as int))
        && seq_sum(counts.skip(mid as int)) >= 5
}

/// It dominates: at least 5 occurrences, over 25% of all counted messages.
pub open spec fn is_high_volume(count: int, all: int) -> bool {
    4 * count > all && count >= 5
}

/// Which shapes a message's trend has.
#[derive(Clone, Copy, Debug, PartialEq, Eq, Structural)]
pub struct TrendShape {
    pub spike: bool,
    pub burst: bool,
    pub recurring: bool,
    pub increasing: bool,
}

pub open spec fn shape_of(total: int, counts: Seq<usize>, buckets: int) -> TrendShape {
    TrendShape {
        spike: is_spike(total, counts.len() as int, seq_max(counts), buckets),
        burst: is_burst(total, counts.len() as int, buckets),
        recurring: is_recurring(total, counts.len() as int, buckets),
        increasing: is_increasing(counts),
    }
}

fn sum_range(counts: &Vec<usize>, lo: usize, hi: usize) -> (r: u128)
    requires
        lo <= hi <= counts@.len(),
    ensures
        r == seq_sum(counts@.subrange(lo as int, hi as int)),
        r <= (hi - lo) * 0xffff_ffff_ffff_ffff,
{
    let mut acc: u128 = 0;
    let mut k: usize = lo;
    while k < hi
        invariant
            lo <= k <= hi,
            hi <= counts@.len(),
            acc == seq_sum(counts@.subrange(lo as int, k as int)),
            acc <= (k - lo) * 0xffff_ffff_ffff_ffff,
        decreases hi - k,
    {
        assert(counts@.subrange(lo as int, k + 1).drop_last() =~= counts@.subrange(lo as int, k as int));
        assert(acc + counts[k as int] <= (k + 1 - lo) * 0xffff_ffff_ffff_ffff) by (nonlinear_arith)
            requires
                acc <= (k - lo) * 0xffff_ffff_ffff_ffff,
                counts[k as int] <= 0xffff_ffff_ffff_ffff,
                k >= lo,
        {
        }
        assert((k + 1 - lo) * 0xffff_ffff_ffff_ffff < 0x1_0000_0000_0000_0000 * 0x1_0000_0000_0000_0000) by (nonlinear_arith)
            requires
                k < 0x1_0000_0000_0000_0000,
                k >= lo,
        {
        }
        acc = acc + counts[k] as u128;
        k = k + 1;
    }
    acc
}

fn max_of(counts: &Vec<usize>) -> (r: usize)
    ensures
        r == seq_max(counts@),
{
    let mut best: usize = 0;
    let mut k: usize = 0;
    while k < counts.len()
        invariant
            k <= counts@.len(),
            best == seq_max(counts@.take(k as int)),
        decreases counts.len() - k,
    {
        assert(counts@.take(k + 1).drop_last() =~= counts@.take(k as int));
        if counts[k] > best {
            best = counts[k];
        }
        k = k + 1;
    }
    assert(counts@.take(counts@.len() as int) =~= counts@);
    best
}

/// Classifies one message's trend: `counts` are its bucket counts in time
/// order, `total` its count, `buckets` the number of buckets in the series.
pub fn classify_trend(total: usize, counts: &Vec<usize>, buckets: usize) -> (r: TrendShape)
    ensures
        r == shape_of(total as int, counts@, buckets as int),
{
    let active = counts.len();
    let peak = max_of(counts);
    assert((peak as u128) * (buckets as u128) < 0x1_0000_0000_0000_0000 * 0x1_0000_0000_0000_0000) by (nonlinear_arith)
        requires
            peak < 0x1_0000_0000_0000_0000,
            buckets < 0x1_0000_0000_0000_0000,
    {
    }
    let spike = active >= 2 && (peak as u128) * (buckets as u128) > 3 * (total as u128) && peak >= 3;
    let burst = total >= 5 && 10 * (active as u128) < 3 * (buckets as u128) && active <= 5;
    let recurring = total >= 5 && 10 * (active as u128) > 4 * (buckets as u128) && active >= 3;
    let mid = active / 2;
    let first = sum_range(counts, 0, mid);
    let second = sum_range(counts, mid, active);
    assert(counts@.subrange(0, mid as int) =~= counts@.take(mid as int));
    assert(counts@.subrange(mid as int, active as int) =~= counts@.skip(mid as int));
    assert(first <= mid * 0xffff_ffff_ffff_ffffu128) by (nonlinear_arith)
        requires
            first <= (mid - 0) * 0xffff_ffff_ffff_ffff,
    {
    }
    assert(mid * 0xffff_ffff_ffff_ffffu128 <= 0x8000_0000_0000_0000u128 * 0xffff_ffff_ffff_ffffu128) by (nonlinear_arith)
        requires
            mid <= 0x8000_0000_0000_0000u128,
    {
    }
    let increasing = active >= 4 && second > 2 * first && second >= 5;
    TrendShape { spike, burst, recurring, increasing }
}

/// `a` may stand before `b`: more severe, or as severe with at least its count.
pub open spec fn ordered_pair(a: PatternInfo, b: PatternInfo) -> bool {
    severity_rank(a.severity) < severity_rank(b.severity) || (severity_rank(a.severity)
        == severity_rank(b.severity) && a.count >= b.count)
}

pub open spec fn sorted_patterns(s: Seq<PatternInfo>) -> bool {
    forall|i: int, j: int| 0 <= i < j < s.len() ==> #[trigger] ordered_pair(s[i], s[j])
}

/// The bucket counts of a listing.
pub open spec fn listing_counts(ls: Seq<(String, usize)>) -> Seq<usize> {
    ls.map_values(|e: (String, usize)| e.1)
}

/// Appends `num / den` rounded to one decimal place.
fn push_tenths(out: &mut String, num: u64, den: u64)
    requires
        den > 0,
{
    let tenths: u128 = ((num as u128) * 20 + (den as u128)) / (2 * (den as u128));
    assert(tenths <= (num as u128) * 20 + (den as u128)) by (nonlinear_arith)
        requires
            tenths == ((num as u128) * 20 + (den as u128)) / (2 * (den as u128)),
            den > 0,
    {
    }
    let whole = tenths / 10;
    let frac = tenths % 10;
    push_decimal(out, if whole <= u64::MAX as u128 { whole as u64 } else { u64::MAX });
    out.append(".");
    push_decimal(out, frac as u64);
}

/// Appends `part / all` as a percentage rounded to one decimal place.
fn push_percent_tenths(out: &mut String, part: usize, all: u128) {
    if all == 0 || all > 0xffff_ffff_ffff_ffff_ffff {
        out.append("0.0");
        return;
    }
    assert((part as u128) * 2000 <= 0xffff_ffff_ffff_ffffu128 * 2000);
    let tenths: u128 = ((part as u128) * 2000 + all) / (2 * all);
    let whole = tenths / 10;
    let frac = tenths % 10;
    push_decimal(out, if whole <= u64::MAX as u128 { whole as u64 } else { u64::MAX });
    out.append(".");
    push_decimal(out, frac as u64);
}

fn describe_spike(peak: usize, bucket: &str, total: usize, buckets: usize) -> String
    requires
        buckets > 0,
{
    let mut s = String::new();
    s.append("Spike of ");
    push_decimal(&mut s, peak as u64);
    s.append(" at ");
    s.append(bucket);
    s.append(", avg ");
    push_tenths(&mut s, total as u64, buckets as u64);
    s.append("/bucket");
    s
}

fn text_with_number(before: &str, n: u64, after: &str) -> String {
    let mut s = String::new();
    s.append(before);
    push_decimal(&mut s, n);
    s.append(after);
    s
}

/// `part` as a whole percentage of `all`, rounded down.
fn percent_floor(part: usize, all: usize) -> (r: u64)
    requires
        all > 0,
{
    let p: u128 = (part as u128) * 100 / (all as u128);
    if p <= u64::MAX as u128 { p as u64 } else { u64::MAX }
}

impl AnalysisState {
    /// What makes a pattern of kind `k` with severity `sev` hold for the
    /// message at position `m`, with `buckets` buckets in the whole series.
    pub open spec fn pattern_holds(&self, m: int, k: PatternType, sev: Severity) -> bool {
        let total = self.messages().values_view()[m] as int;
        let trend = self.trends()[m];
        let active = trend.keys_view().len() as int;
        let buckets = self.series().keys_view().len() as int;
        match k {
            PatternType::Spike => buckets > 0 && active > 0 && is_spike(total, active, seq_max(trend.values_view()), buckets)
                && sev == (if seq_max(trend.values_view()) >= 50 {
                Severity::Critical
            } else {
                Severity::Warning
            }),
            PatternType::Burst => buckets > 0 && active > 0 && is_burst(total, active, buckets) && sev == Severity::Warning,
            PatternType::Recurring => buckets > 0 && active > 0 && is_recurring(total, active, buckets) && sev
                == Severity::Warning,
            PatternType::Increasing => buckets > 0 && active > 0 && sev == Severity::Warning && exists|
                ls: Seq<(String, usize)>,
            |
                sorted_listing(trend, ls) && #[trigger] is_increasing(listing_counts(ls)),
            PatternType::HighVolume => is_high_volume(
                total,
                seq_sum(self.messages().values_view()),
            ) && sev == (if 2 * total > seq_sum(self.messages().values_view()) {
                Severity::Critical
            } else {
                Severity::Warning
            }),
        }
    }

    /// Pattern `p` reports the message at some position, with a kind that holds for it.
    pub open spec fn justified(&self, p: PatternInfo) -> bool {
        exists|m: int|
            0 <= m < self.messages().keys_view().len() && p.message@ == truncated(
                self.messages().keys_view()[m],
                80,
            ) && p.count == self.messages().values_view()[m] && #[trigger] self.pattern_holds(
                m,
                p.pattern_type,
                p.severity,
            )
    }
}

/// Pattern `p` reports kind `k` for the display string `disp` with `count`.
pub open spec fn reports(p: PatternInfo, disp: Seq<char>, k: PatternType, count: usize, sev: Severity) -> bool {
    p.pattern_type == k && p.message@ == disp && p.count == count && p.severity == sev
}

/// Some pattern of `s` reports kind `k` for `disp` with `count`.
pub open spec fn has_report(s: Seq<PatternInfo>, disp: Seq<char>, k: PatternType, count: usize, sev: Severity) -> bool {
    exists|i: int| 0 <= i < s.len() && #[trigger] reports(s[i], disp, k, count, sev)
}

/// Some pattern of `s` shows the display string `disp`.
pub open spec fn has_display(s: Seq<PatternInfo>, disp: Seq<char>) -> bool {
    exists|i: int| 0 <= i < s.len() && #[trigger] s[i].message@ == disp
}

/// Pattern `p` may stand before one of severity `sev` and count `count`.
pub open spec fn precedes(p: PatternInfo, sev: Severity, count: usize) -> bool {
    severity_rank(p.severity) < severity_rank(sev) || (severity_rank(p.severity)
        == severity_rank(sev) && p.count >= count)
}

/// The kinds read from the trend of a message.
pub open spec fn shape_kind(k: PatternType) -> bool {
    k == PatternType::Spike || k == PatternType::Burst || k == PatternType::Recurring
        || k == PatternType::Increasing
}

impl AnalysisState {
    /// The severity a pattern of kind `k` for the message at `m` is given.
    pub open spec fn expected_severity(&self, m: int, k: PatternType) -> Severity {
        if k == PatternType::Spike && seq_max(self.trends()[m].values_view()) >= 50 {
            Severity::Critical
        } else if k == PatternType::HighVolume && 2 * self.messages().values_view()[m] > seq_sum(
            self.messages().values_view(),
        ) {
            Severity::Critical
        } else {
            Severity::Warning
        }
    }

    /// The message at `m` dominates the counted volume, in a series with buckets.
    pub open spec fn dominates(&self, m: int) -> bool {
        is_high_volume(
            self.messages().values_view()[m] as int,
            seq_sum(self.messages().values_view()),
        )
    }

    /// The message at `m` is reported with kind `k` in `r`, or `r` is full of
    /// patterns that stand before it.
    pub open spec fn covered(&self, r: Seq<PatternInfo>, m: int, k: PatternType) -> bool {
        has_report(
            r,
            truncated(self.messages().keys_view()[m], 80),
            k,
            self.messages().values_view()[m],
            self.expected_severity(m, k),
        ) || (r.len() == 10 && forall|i: int|
            0 <= i < r.len() ==> #[trigger] precedes(
                r[i],
                self.expected_severity(m, k),
                self.messages().values_view()[m],
            ))
    }
}

/// The order in which the kinds are examined for one message.
pub open spec fn kind_rank(k: PatternType) -> int {
    match k {
        PatternType::Spike => 0,
        PatternType::Burst => 1,
        PatternType::Recurring => 2,
        PatternType::Increasing => 3,
        PatternType::HighVolume => 4,
    }
}

/// No two patterns of one kind come from the same message.
pub open spec fn distinct_sources(ps: Seq<PatternInfo>, src: Seq<int>) -> bool {
    forall|i: int, j: int|
        #![trigger ps[i], ps[j]]
        0 <= i < ps.len() && 0 <= j < ps.len() && i != j && ps[i].pattern_type
            == ps[j].pattern_type ==> src[i] != src[j]
}

/// A HighVolume pattern shows a display string no other pattern shows.
pub open spec fn high_volume_unique(ps: Seq<PatternInfo>) -> bool {
    forall|i: int, j: int|
        #![trigger ps[i], ps[j]]
        0 <= i < ps.len() && 0 <= j < ps.len() && i != j && ps[i].pattern_type
            == PatternType::HighVolume ==> ps[j].message@ != ps[i].message@
}

impl AnalysisState {
    /// Pattern `p` reports the message at position `m`, with a kind that holds for it.
    pub open spec fn source_of(&self, p: PatternInfo, m: int) -> bool {
        0 <= m < self.messages().keys_view().len() && p.message@ == truncated(
            self.messages().keys_view()[m],
            80,
        ) && p.count == self.messages().values_view()[m] && self.pattern_holds(
            m,
            p.pattern_type,
            p.severity,
        )
    }

    /// `src` gives, for each pattern of `ps`, the message it reports.
    pub open spec fn sourced(&self, ps: Seq<PatternInfo>, src: Seq<int>) -> bool {
        src.len() == ps.len() && forall|i: int|
            0 <= i < ps.len() ==> self.source_of(#[trigger] ps[i], src[i])
    }

    /// No message other than the one at `m` with the same display string
    /// yields a trend pattern, and none before it dominates: its HighVolume
    /// report is not left out as a duplicate.
    pub open spec fn high_volume_fresh(&self, m: int) -> bool {
        forall|m2: int|
            0 <= m2 < self.messages().keys_view().len() && #[trigger] truncated(
                self.messages().keys_view()[m2],
                80,
            ) == truncated(self.messages().keys_view()[m], 80) ==> (forall|k: PatternType|
                shape_kind(k) ==> !#[trigger] self.pattern_holds(m2, k, self.expected_severity(m2, k)))
                && (m2 < m ==> !self.dominates(m2))
    }
}

/// Inserts `p`, which reports the message at `m`, in rank order.
fn add_from(
    st: &AnalysisState,
    v: &mut Vec<PatternInfo>,
    src: Ghost<Seq<int>>,
    p: PatternInfo,
    m: usize,
) -> (new_src: Ghost<Seq<int>>)
    requires
        sorted_patterns(old(v)@),
        st.sourced(old(v)@, src@),
        distinct_sources(old(v)@, src@),
        st.source_of(p, m as int),
        forall|i: int|
            0 <= i < old(v)@.len() && (#[trigger] old(v)@[i]).pattern_type == p.pattern_type ==> src@[i]
                != m,
    ensures
        sorted_patterns(final(v)@),
        st.sourced(final(v)@, new_src@),
        distinct_sources(final(v)@, new_src@),
        forall|d: Seq<char>, k: PatternType, c: usize, e: Severity|
            #[trigger] has_report(old(v)@, d, k, c, e) ==> has_report(final(v)@, d, k, c, e),
        has_report(final(v)@, p.message@, p.pattern_type, p.count, p.severity),
        forall|d: Seq<char>| #[trigger] has_display(old(v)@, d) ==> has_display(final(v)@, d),
        exists|j: int|
            0 <= j <= old(v)@.len() && final(v)@ == old(v)@.insert(j, p) && new_src@ == src@.insert(
                j,
                m as int,
            ),
        forall|i: int|
            0 <= i < final(v)@.len() ==> ((#[trigger] final(v)@[i]) == p && new_src@[i] == m) || (
            exists|k: int|
                0 <= k < old(v)@.len() && final(v)@[i] == #[trigger] old(v)@[k] && new_src@[i]
                    == src@[k]),
{
    let ghost pg = p;
    let ghost before = v@;
    let j = insert_sorted(v, p);
    let ghost ns = src@.insert(j as int, m as int);
    proof {
        assert forall|i: int| 0 <= i < v@.len() implies st.source_of(#[trigger] v@[i], ns[i]) by {
            if i < j {
                assert(v@[i] == before[i] && ns[i] == src@[i]);
            } else if i > j {
                assert(v@[i] == before[i - 1] && ns[i] == src@[i - 1]);
            }
        }
        assert forall|a: int, b: int|
            #![trigger v@[a], v@[b]]
            0 <= a < v@.len() && 0 <= b < v@.len() && a != b && v@[a].pattern_type
                == v@[b].pattern_type implies ns[a] != ns[b] by {
            let oa = if a < j { a } else { a - 1 };
            let ob = if b < j { b } else { b - 1 };
            if a != j && b != j {
                assert(v@[a] == before[oa] && v@[b] == before[ob]);
            } else if a == j {
                assert(v@[b] == before[ob]);
            } else {
                assert(v@[a] == before[oa]);
            }
        }
        assert forall|i: int| 0 <= i < v@.len() implies ((#[trigger] v@[i]) == pg && ns[i] == m) || (
        exists|k: int| 0 <= k < before.len() && v@[i] == #[trigger] before[k] && ns[i] == src@[k]) by {
            if i < j {
                assert(v@[i] == before[i]);
            } else if i > j {
                assert(v@[i] == before[i - 1]);
            }
        }
        assert(v@ == before.insert(j as int, pg) && ns == src@.insert(j as int, m as int));
    }
    Ghost(ns)
}

/// Inserts `p` after every pattern that may stand before it.
fn insert_sorted(v: &mut Vec<PatternInfo>, p: PatternInfo) -> (r: usize)
    requires
        sorted_patterns(old(v)@),
    ensures
        r <= old(v)@.len(),
        final(v)@ == old(v)@.insert(r as int, p),
        sorted_patterns(final(v)@),
        final(v)@.len() == old(v)@.len() + 1,
        forall|i: int|
            0 <= i < final(v)@.len() ==> old(v)@.contains(#[trigger] final(v)@[i]) || final(v)@[i]
                == p,
        forall|x: PatternInfo| #[trigger] old(v)@.contains(x) ==> final(v)@.contains(x),
        final(v)@.contains(p),
        forall|d: Seq<char>, k: PatternType, c: usize, e: Severity|
            #[trigger] has_report(old(v)@, d, k, c, e) ==> has_report(final(v)@, d, k, c, e),
        has_report(final(v)@, p.message@, p.pattern_type, p.count, p.severity),
        forall|d: Seq<char>| #[trigger] has_display(old(v)@, d) ==> has_display(final(v)@, d),
{
    let rank = severity_order(p.severity);
    let mut j: usize = v.len();
    while j > 0 && (severity_order(v[j - 1].severity) > rank || (severity_order(v[j - 1].severity)
        == rank && v[j - 1].count < p.count))
        invariant
            j <= v@.len(),
            v@ == old(v)@,
            rank == severity_rank(p.severity),
            forall|i: int| j <= i < v@.len() ==> !ordered_pair(#[trigger] v@[i], p),
        decreases j,
    {
        j = j - 1;
    }
    let ghost before = v@;
    let ghost pp = p;
    v.insert(j, p);
    proof {
        assert forall|a: int, b: int| 0 <= a < b < v@.len() implies #[trigger] ordered_pair(v@[a], v@[b]) by {
            if b < j {
                assert(v@[a] == before[a] && v@[b] == before[b]);
            } else if b == j {
                assert(v@[a] == before[a]);
                assert(ordered_pair(before[j - 1], pp));
                if a < j - 1 {
                    assert(ordered_pair(before[a], before[j - 1]));
                }
            } else if a == j {
                assert(v@[b] == before[b - 1]);
                assert(!ordered_pair(before[b - 1], pp));
            } else if a > j {
                assert(v@[a] == before[a - 1] && v@[b] == before[b - 1]);
                assert(ordered_pair(before[a - 1], before[b - 1]));
            } else {
                assert(v@[a] == before[a] && v@[b] == before[b - 1]);
                assert(ordered_pair(before[a], before[b - 1]));
            }
        }
        assert forall|i: int| 0 <= i < v@.len() implies before.contains(#[trigger] v@[i]) || v@[i] == pp by {
            if i < j {
                assert(v@[i] == before[i]);
            } else if i > j {
                assert(v@[i] == before[i - 1]);
            }
        }
        assert forall|x: PatternInfo| #[trigger] before.contains(x) implies v@.contains(x) by {
            let w = choose|w: int| 0 <= w < before.len() && before[w] == x;
            if w < j {
                assert(v@[w] == x);
            } else {
                assert(v@[w + 1] == x);
            }
        }
        assert(v@[j as int] == pp);
        assert(reports(v@[j as int], pp.message@, pp.pattern_type, pp.count, pp.severity));
        assert forall|d: Seq<char>| #[trigger] has_display(before, d) implies has_display(v@, d) by {
            let w = choose|w: int| 0 <= w < before.len() && #[trigger] before[w].message@ == d;
            if w < j {
                assert(v@[w] == before[w]);
            } else {
                assert(v@[w + 1] == before[w]);
            }
        }
        assert forall|d: Seq<char>, k: PatternType, c: usize, e: Severity|
            #[trigger] has_report(before, d, k, c, e) implies has_report(v@, d, k, c, e) by {
            let w = choose|w: int| 0 <= w < before.len() && #[trigger] reports(before[w], d, k, c, e);
            if w < j {
                assert(v@[w] == before[w]);
                assert(reports(v@[w], d, k, c, e));
            } else {
                assert(v@[w + 1] == before[w]);
                assert(reports(v@[w + 1], d, k, c, e));
            }
        }
    }
    j
}

/// The values of a table, in insertion order.
fn table_values(t: &KeyedTable<usize>) -> (r: Vec<usize>)
    requires
        t.wf(),
    ensures
        r@ == t.values_view(),
{
    proof {
        t.lemma_wf();
    }
    let mut out: Vec<usize> = Vec::new();
    let mut i: usize = 0;
    while i < t.len()
        invariant
            t.wf(),
            i <= t.keys_view().len(),
            t.values_view().len() == t.keys_view().len(),
            out@ == t.values_view().take(i as int),
        decreases t.keys_view().len() - i,
    {
        out.push(*t.value(i));
        assert(t.values_view().take(i + 1) =~= t.values_view().take(i as int).push(t.values_view()[i as int]));
        i = i + 1;
    }
    assert(t.values_view().take(t.keys_view().len() as int) =~= t.values_view());
    out
}

fn seq_sum_bound(v: &Vec<usize>) -> (r: u128)
    ensures
        r == seq_sum(v@),
{
    let r = sum_range(v, 0, v.len());
    assert(v@.subrange(0, v@.len() as int) =~= v@);
    r
}

fn listing_count_vec(ls: &Vec<(String, usize)>) -> (r: Vec<usize>)
    ensures
        r@ == listing_counts(ls@),
{
    let mut out: Vec<usize> = Vec::new();
    let mut i: usize = 0;
    while i < ls.len()
        invariant
            i <= ls@.len(),
            out@ == listing_counts(ls@.take(i as int)),
        decreases ls.len() - i,
    {
        out.push(ls[i].1);
        assert(listing_counts(ls@.take(i + 1)) =~= listing_counts(ls@.take(i as int)).push(ls@[i as int].1));
        i = i + 1;
    }
    assert(ls@.take(ls@.len() as int) =~= ls@);
    out
}

/// Whether some pattern already reports the display string `m`.
fn already_reported(v: &Vec<PatternInfo>, m: &String) -> (r: bool)
    ensures
        r == has_display(v@, m@),
{
    let mut i: usize = 0;
    while i < v.len()
        invariant
            i <= v@.len(),
            forall|j: int| 0 <= j < i ==> v@[j].message@ != m@,
        decreases v.len() - i,
    {
        if v[i].message == *m {
            assert(v@[i as int].message@ == m@);
            return true;
        }
        i = i + 1;
    }
    false
}

impl AnalysisState {
    /// Adds the trend patterns of the message at `m`.
    #[verifier::rlimit(60)]
    fn add_trend_patterns(
        &self,
        v: &mut Vec<PatternInfo>,
        src: Ghost<Seq<int>>,
        m: usize,
        buckets: usize,
    ) -> (new_src: Ghost<Seq<int>>)
        requires
            self.wf(),
            buckets == self.series().keys_view().len(),
            buckets > 0,
            m < self.messages().keys_view().len(),
            sorted_patterns(old(v)@),
            self.sourced(old(v)@, src@),
            distinct_sources(old(v)@, src@),
            forall|i: int| 0 <= i < src@.len() ==> #[trigger] src@[i] < m,
            forall|i: int| 0 <= i < old(v)@.len() ==> (#[trigger] old(v)@[i]).pattern_type != PatternType::HighVolume,
        ensures
            sorted_patterns(final(v)@),
            self.sourced(final(v)@, new_src@),
            distinct_sources(final(v)@, new_src@),
            forall|i: int| 0 <= i < new_src@.len() ==> #[trigger] new_src@[i] < m + 1,
            forall|i: int| 0 <= i < final(v)@.len() ==> (#[trigger] final(v)@[i]).pattern_type != PatternType::HighVolume,
            forall|d: Seq<char>, k: PatternType, c: usize, e: Severity|
                #[trigger] has_report(old(v)@, d, k, c, e) ==> has_report(final(v)@, d, k, c, e),
            forall|k: PatternType|
                shape_kind(k) && #[trigger] self.pattern_holds(m as int, k, self.expected_severity(m as int, k))
                    ==> has_report(
                    final(v)@,
                    truncated(self.messages().keys_view()[m as int], 80),
                    k,
                    self.messages().values_view()[m as int],
                    self.expected_severity(m as int, k),
                ),
    {
        proof {
            self.lemma_views();
            self.error_messages.lemma_wf();
        }
        let mut src = src;
        let total = *self.error_messages.value(m);
        let trend = &self.message_trends[m];
        proof {
            assert(trend.wf());
            trend.lemma_wf();
        }
        let active = trend.len();
        if active == 0 {
            return src;
        }
        let ghost start = v@;
        let display = truncate_msg(self.error_messages.key(m).as_str(), 80);
        let values = table_values(trend);
        let listing = sorted_entries(trend);
        let counts = listing_count_vec(&listing);
        let shape = classify_trend(total, &values, buckets);
        let order_shape = classify_trend(total, &counts, buckets);
        proof {
            if self.pattern_holds(m as int, PatternType::Increasing, Severity::Warning) {
                let ls = choose|ls: Seq<(String, usize)>|
                    sorted_listing(*trend, ls) && #[trigger] is_increasing(listing_counts(ls));
                crate::state::lemma_listing_unique(*trend, ls, listing@);
                assert(listing_counts(ls) =~= listing_counts(listing@));
            }
        }
        if shape.spike {
            let peak = max_of(&values);
            let mut at = String::new();
            let mut k: usize = 0;
            while k < listing.len()
                invariant
                    k <= listing@.len(),
                decreases listing.len() - k,
            {
                if listing[k].1 == peak {
                    at = listing[k].0.clone();
                    break;
                }
                k = k + 1;
            }
            let p = PatternInfo {
                pattern_type: PatternType::Spike,
                message: display.clone(),
                description: describe_spike(peak, at.as_str(), total, buckets),
                severity: if peak >= 50 { Severity::Critical } else { Severity::Warning },
                count: total,
                details: Some(text_with_number("Peak: ", peak as u64, " occurrences in single minute")),
            };
            assert(self.source_of(p, m as int));
            src = add_from(self, v, src, p, m);
        }
        assert forall|i: int| 0 <= i < v@.len() implies src@[i] < m || (src@[i] == m && kind_rank(
            (#[trigger] v@[i]).pattern_type,
        ) < 1) by {
            if v@.len() != start.len() {
                if !(v@[i].pattern_type == PatternType::Spike && src@[i] == m) {
                }
            }
        }
        if shape.burst {
            let p = PatternInfo {
                pattern_type: PatternType::Burst,
                message: display.clone(),
                description: text_with_number(
                    text_with_number("", total as u64, " occurrences in only ").as_str(),
                    active as u64,
                    " time windows",
                ),
                severity: Severity::Warning,
                count: total,
                details: Some(text_with_number("Concentrated burst - ", percent_floor(active, buckets), "% of time range")),
            };
            assert(self.source_of(p, m as int));
            src = add_from(self, v, src, p, m);
        }
        assert forall|i: int| 0 <= i < v@.len() implies src@[i] < m || (src@[i] == m && kind_rank(
            (#[trigger] v@[i]).pattern_type,
        ) < 2) by {}
        if shape.recurring {
            let p = PatternInfo {
                pattern_type: PatternType::Recurring,
                message: display.clone(),
                description: text_with_number(
                    text_with_number("Recurring ", total as u64, " times across ").as_str(),
                    percent_floor(active, buckets),
                    "% of time range",
                ),
                severity: Severity::Warning,
                count: total,
                details: Some(text_with_number("Persistent issue - appears in ", active as u64, " buckets")),
            };
            assert(self.source_of(p, m as int));
            src = add_from(self, v, src, p, m);
        }
        assert forall|i: int| 0 <= i < v@.len() implies src@[i] < m || (src@[i] == m && kind_rank(
            (#[trigger] v@[i]).pattern_type,
        ) < 3) by {}
        if order_shape.increasing {
            let mid = counts.len() / 2;
            let first = sum_range(&counts, 0, mid);
            let second = sum_range(&counts, mid, counts.len());
            let ratio = second / (if first > 0 { first } else { 1 });
            let mut d = text_with_number("Rate increased from ", if first <= u64::MAX as u128 { first as u64 } else { u64::MAX }, " to ");
            d = text_with_number(d.as_str(), if second <= u64::MAX as u128 { second as u64 } else { u64::MAX }, " (");
            d = text_with_number(d.as_str(), if ratio <= u64::MAX as u128 { ratio as u64 } else { u64::MAX }, "x)");
            let p = PatternInfo {
                pattern_type: PatternType::Increasing,
                message: display.clone(),
                description: d,
                severity: Severity::Warning,
                count: total,
                details: Some("Frequency increasing over time".to_owned()),
            };
            proof {
                assert(sorted_listing(*trend, listing@));
                assert(is_increasing(listing_counts(listing@)));
            }
            assert(self.source_of(p, m as int));
            src = add_from(self, v, src, p, m);
        }
        assert forall|i: int| 0 <= i < src@.len() implies #[trigger] src@[i] < m + 1 by {
            assert(src@[i] < m || (src@[i] == m && kind_rank(v@[i].pattern_type) < 4));
        }
        src
    }

    /// Adds a HighVolume pattern for the message at `m` where it dominates and
    /// no pattern shows its display string yet.
    #[verifier::rlimit(60)]
    fn add_high_volume(
        &self,
        v: &mut Vec<PatternInfo>,
        src: Ghost<Seq<int>>,
        m: usize,
        count: usize,
        all: u128,
    ) -> (new_src: Ghost<Seq<int>>)
        requires
            self.wf(),
            m < self.messages().keys_view().len(),
            self.messages().values_view().len() == self.messages().keys_view().len(),
            count == self.messages().values_view()[m as int],
            all == seq_sum(self.messages().values_view()),
            sorted_patterns(old(v)@),
            self.sourced(old(v)@, src@),
            distinct_sources(old(v)@, src@),
            high_volume_unique(old(v)@),
            forall|i: int|
                0 <= i < old(v)@.len() && (#[trigger] old(v)@[i]).pattern_type == PatternType::HighVolume
                    ==> src@[i] < m,
        ensures
            sorted_patterns(final(v)@),
            self.sourced(final(v)@, new_src@),
            distinct_sources(final(v)@, new_src@),
            high_volume_unique(final(v)@),
            forall|i: int|
                0 <= i < final(v)@.len() && (#[trigger] final(v)@[i]).pattern_type == PatternType::HighVolume
                    ==> new_src@[i] < m + 1,
            forall|d: Seq<char>, k: PatternType, c: usize, e: Severity|
                #[trigger] has_report(old(v)@, d, k, c, e) ==> has_report(final(v)@, d, k, c, e),
            forall|d: Seq<char>| #[trigger] has_display(old(v)@, d) ==> has_display(final(v)@, d),
            self.dominates(m as int) ==> has_display(final(v)@, truncated(self.messages().keys_view()[m as int], 80)),
            self.dominates(m as int) && self.high_volume_fresh(m as int) ==> has_report(
                final(v)@,
                truncated(self.messages().keys_view()[m as int], 80),
                PatternType::HighVolume,
                count,
                self.expected_severity(m as int, PatternType::HighVolume),
            ),
    {
        proof {
            self.lemma_views();
            self.error_messages.lemma_wf();
        }
        let mut src = src;
        let ghost d = truncated(self.messages().keys_view()[m as int], 80);
        if 4 * (count as u128) > all && count >= 5 {
            let display = truncate_msg(self.error_messages.key(m).as_str(), 80);
            let shown = already_reported(v, &display);
            proof {
                if self.dominates(m as int) && self.high_volume_fresh(m as int) && shown {
                    let i = choose|i: int| 0 <= i < v@.len() && #[trigger] v@[i].message@ == d;
                    let m2 = src@[i];
                    assert(self.source_of(v@[i], m2));
                    assert(truncated(self.messages().keys_view()[m2], 80) == d);
                    let k = v@[i].pattern_type;
                    if k == PatternType::HighVolume {
                        assert(self.dominates(m2));
                    } else {
                        assert(shape_kind(k));
                        assert(v@[i].severity == self.expected_severity(m2, k));
                        assert(self.pattern_holds(m2, k, self.expected_severity(m2, k)));
                    }
                }
            }
            if !shown {
                let mut desc = String::new();
                push_percent_tenths(&mut desc, count, all);
                let pct = desc.clone();
                desc.append("% of all errors (");
                push_decimal(&mut desc, count as u64);
                desc.append(" occurrences)");
                let mut details = String::new();
                details.append("Dominates error log with ");
                details.append(pct.as_str());
                details.append("% share");
                let p = PatternInfo {
                    pattern_type: PatternType::HighVolume,
                    message: display,
                    description: desc,
                    severity: if 2 * (count as u128) > all { Severity::Critical } else { Severity::Warning },
                    count,
                    details: Some(details),
                };
                let ghost pg = p;
                let ghost before = v@;
                let ghost src_before = src@;
                assert(self.source_of(p, m as int));
                src = add_from(self, v, src, p, m);
                proof {
                    let j = choose|j: int|
                        0 <= j <= before.len() && v@ == before.insert(j, pg) && src@
                            == src_before.insert(j, m as int);
                    assert forall|a: int, b: int|
                        #![trigger v@[a], v@[b]]
                        0 <= a < v@.len() && 0 <= b < v@.len() && a != b
                            && v@[a].pattern_type == PatternType::HighVolume implies v@[b].message@
                        != v@[a].message@ by {
                        let oa = if a < j { a } else { a - 1 };
                        let ob = if b < j { b } else { b - 1 };
                        if a == j {
                            assert(v@[b] == before[ob]);
                        } else if b == j {
                            assert(v@[a] == before[oa]);
                        } else {
                            assert(v@[a] == before[oa] && v@[b] == before[ob]);
                        }
                    }
                    assert forall|i: int|
                        0 <= i < v@.len() && (#[trigger] v@[i]).pattern_type
                            == PatternType::HighVolume implies src@[i] < m + 1 by {
                        if i < j {
                            assert(v@[i] == before[i]);
                        } else if i > j {
                            assert(v@[i] == before[i - 1]);
                        }
                    }
                }
            }
        }
        src
    }

    /// Detects patterns in the aggregated statistics: at most ten, most severe first,
    /// then by count, highest first. Each pattern reports one message, with a
    /// kind that holds for it; no message is reported twice with one kind; a
    /// HighVolume pattern shows a display string no other pattern shows. Every
    /// message with a trend pattern, and every dominating message not left out
    /// as a duplicate, is reported unless ten patterns rank before it. The
    /// trend kinds need time buckets; the volume kind does not.
    pub fn get_patterns(&self) -> (r: Vec<PatternInfo>)
        requires
            self.wf(),
        ensures
            r@.len() <= 10,
            sorted_patterns(r@),
            forall|i: int| 0 <= i < r@.len() ==> self.justified(#[trigger] r@[i]),
            exists|src: Seq<int>| self.sourced(r@, src) && distinct_sources(r@, src),
            high_volume_unique(r@),
            self.series().keys_view().len() == 0 ==> forall|i: int|
                0 <= i < r@.len() ==> (#[trigger] r@[i]).pattern_type == PatternType::HighVolume,
            forall|m: int, k: PatternType|
                0 <= m < self.messages().keys_view().len() && shape_kind(k) && #[trigger] self.pattern_holds(
                    m,
                    k,
                    self.expected_severity(m, k),
                ) ==> self.covered(r@, m, k),
            forall|m: int|
                0 <= m < self.messages().keys_view().len() && #[trigger] self.dominates(m)
                    && self.high_volume_fresh(m) ==> self.covered(r@, m, PatternType::HighVolume),
            forall|m: int|
                0 <= m < self.messages().keys_view().len() && #[trigger] self.dominates(m) ==> r@.len()
                    == 10 || has_display(r@, truncated(self.messages().keys_view()[m], 80)),
    {
        let mut patterns: Vec<PatternInfo> = Vec::new();
        let mut src: Ghost<Seq<int>> = Ghost(Seq::empty());
        proof {
            self.lemma_views();
            self.error_messages.lemma_wf();
        }
        let buckets = self.time_series.len();
        let n = self.error_messages.len();
        let mut m: usize = 0;
        while m < n
            invariant
                self.wf(),
                n == self.messages().keys_view().len(),
                self.messages().values_view().len() == n,
                buckets == self.series().keys_view().len(),
                m <= n,
                sorted_patterns(patterns@),
                self.sourced(patterns@, src@),
                distinct_sources(patterns@, src@),
                forall|i: int| 0 <= i < src@.len() ==> #[trigger] src@[i] < m,
                forall|i: int| 0 <= i < patterns@.len() ==> (#[trigger] patterns@[i]).pattern_type != PatternType::HighVolume,
                forall|m2: int, k: PatternType|
                    0 <= m2 < m && shape_kind(k) && #[trigger] self.pattern_holds(
                        m2,
                        k,
                        self.expected_severity(m2, k),
                    ) ==> has_report(
                        patterns@,
                        truncated(self.messages().keys_view()[m2], 80),
                        k,
                        self.messages().values_view()[m2],
                        self.expected_severity(m2, k),
                    ),
            decreases n - m,
        {
            // trend shapes need time buckets; without them only volume counts
            if buckets > 0 {
                src = self.add_trend_patterns(&mut patterns, src, m, buckets);
            }
            m = m + 1;
        }

        // messages that dominate the counted volume
        let all_counts = table_values(&self.error_messages);
        let all = seq_sum_bound(&all_counts);
        let mut m: usize = 0;
        while m < n
            invariant
                self.wf(),
                n == self.messages().keys_view().len(),
                self.messages().values_view().len() == n,
                all_counts@ == self.messages().values_view(),
                all == seq_sum(self.messages().values_view()),
                buckets == self.series().keys_view().len(),
                m <= n,
                sorted_patterns(patterns@),
                self.sourced(patterns@, src@),
                distinct_sources(patterns@, src@),
                high_volume_unique(patterns@),
                forall|i: int|
                    0 <= i < patterns@.len() && (#[trigger] patterns@[i]).pattern_type == PatternType::HighVolume
                        ==> src@[i] < m,
                forall|m2: int, k: PatternType|
                    0 <= m2 < n && shape_kind(k) && #[trigger] self.pattern_holds(
                        m2,
                        k,
                        self.expected_severity(m2, k),
                    ) ==> has_report(
                        patterns@,
                        truncated(self.messages().keys_view()[m2], 80),
                        k,
                        self.messages().values_view()[m2],
                        self.expected_severity(m2, k),
                    ),
                forall|m2: int|
                    0 <= m2 < m && #[trigger] self.dominates(m2) ==> has_display(
                        patterns@,
                        truncated(self.messages().keys_view()[m2], 80),
                    ),
                forall|m2: int|
                    0 <= m2 < m && #[trigger] self.dominates(m2) && self.high_volume_fresh(m2) ==> has_report(
                        patterns@,
                        truncated(self.messages().keys_view()[m2], 80),
                        PatternType::HighVolume,
                        self.messages().values_view()[m2],
                        self.expected_severity(m2, PatternType::HighVolume),
                    ),
            decreases n - m,
        {
            let count = all_counts[m];
            src = self.add_high_volume(&mut patterns, src, m, count, all);
            m = m + 1;
        }
        let ghost full = patterns@;
        let ghost full_src = src@;
        patterns.truncate(10);
        proof {
            let rs = full_src.take(patterns@.len() as int);
            assert forall|i: int| 0 <= i < patterns@.len() implies self.source_of(#[trigger] patterns@[i], rs[i]) by {
                assert(patterns@[i] == full[i]);
            }
            assert(self.sourced(patterns@, rs));
            assert forall|a: int, b: int|
                #![trigger patterns@[a], patterns@[b]]
                0 <= a < patterns@.len() && 0 <= b < patterns@.len() && a != b && patterns@[a].pattern_type
                    == patterns@[b].pattern_type implies rs[a] != rs[b] by {
                assert(patterns@[a] == full[a] && patterns@[b] == full[b]);
            }
            assert(distinct_sources(patterns@, rs));
            assert forall|i: int| 0 <= i < patterns@.len() && self.series().keys_view().len() == 0
                implies (#[trigger] patterns@[i]).pattern_type == PatternType::HighVolume by {
                assert(self.source_of(patterns@[i], rs[i]));
            }
            assert forall|a: int, b: int|
                #![trigger patterns@[a], patterns@[b]]
                0 <= a < patterns@.len() && 0 <= b < patterns@.len() && a != b && patterns@[a].pattern_type
                    == PatternType::HighVolume implies patterns@[b].message@ != patterns@[a].message@ by {
                assert(patterns@[a] == full[a] && patterns@[b] == full[b]);
            }
            assert forall|i: int| 0 <= i < patterns@.len() implies self.justified(#[trigger] patterns@[i]) by {
                assert(patterns@[i] == full[i]);
                assert(self.source_of(full[i], full_src[i]));
            }
            assert forall|i: int, j: int| 0 <= i < j < patterns@.len() implies #[trigger] ordered_pair(patterns@[i], patterns@[j]) by {
                assert(patterns@[i] == full[i] && patterns@[j] == full[j]);
            }
            assert forall|m2: int|
                0 <= m2 < self.messages().keys_view().len() && #[trigger] self.dominates(m2) implies patterns@.len()
                    == 10 || has_display(patterns@, truncated(self.messages().keys_view()[m2], 80)) by {
                let d = truncated(self.messages().keys_view()[m2], 80);
                assert(has_display(full, d));
                let w = choose|w: int| 0 <= w < full.len() && #[trigger] full[w].message@ == d;
                if w < 10 {
                    assert(patterns@[w].message@ == d);
                }
            }
            assert forall|m2: int, k: PatternType|
                0 <= m2 < self.messages().keys_view().len() && (shape_kind(k) && self.pattern_holds(
                    m2,
                    k,
                    self.expected_severity(m2, k),
                ) || k == PatternType::HighVolume && self.dominates(m2) && self.high_volume_fresh(m2))
                    implies #[trigger] self.covered(patterns@, m2, k) by {
                let d = truncated(self.messages().keys_view()[m2], 80);
                let c = self.messages().values_view()[m2];
                let e = self.expected_severity(m2, k);
                assert(has_report(full, d, k, c, e));
                let w = choose|w: int| 0 <= w < full.len() && #[trigger] reports(full[w], d, k, c, e);
                if w < 10 {
                    assert(reports(patterns@[w], d, k, c, e));
                } else {
                    assert forall|i: int| 0 <= i < patterns@.len() implies #[trigger] precedes(patterns@[i], e, c) by {
                        assert(ordered_pair(full[i], full[w]));
                    }
                }
            }
        }
        patterns
    }
}


/// A message that spikes, whose display string no other message shares, is
/// reported as a Spike exactly once in any result of `get_patterns` that the
/// ten-pattern cap did not cut.
pub proof fn lemma_spike_reported_once(
    st: AnalysisState,
    r: Seq<PatternInfo>,
    src: Seq<int>,
    m: int,
)
    requires
        st.sourced(r, src),
        distinct_sources(r, src),
        r.len() < 10,
        0 <= m < st.messages().keys_view().len(),
        st.pattern_holds(m, PatternType::Spike, st.expected_severity(m, PatternType::Spike)),
        st.pattern_holds(m, PatternType::Spike, st.expected_severity(m, PatternType::Spike))
            ==> st.covered(r, m, PatternType::Spike),
        forall|m2: int|
            0 <= m2 < st.messages().keys_view().len() && m2 != m ==> #[trigger] truncated(
                st.messages().keys_view()[m2],
                80,
            ) != truncated(st.messages().keys_view()[m], 80),
    ensures
        exists|i: int|
            0 <= i < r.len() && r[i].pattern_type == PatternType::Spike && r[i].message@
                == truncated(st.messages().keys_view()[m], 80) && forall|j: int|
                0 <= j < r.len() && j != i ==> !(r[j].pattern_type == PatternType::Spike
                    && r[j].message@ == truncated(st.messages().keys_view()[m], 80)),
{
    let d = truncated(st.messages().keys_view()[m], 80);
    let c = st.messages().values_view()[m];
    let e = st.expected_severity(m, PatternType::Spike);
    assert(has_report(r, d, PatternType::Spike, c, e));
    let i = choose|i: int| 0 <= i < r.len() && #[trigger] reports(r[i], d, PatternType::Spike, c, e);
    assert(st.source_of(r[i], src[i]));
    assert(src[i] == m);
    assert forall|j: int|
        0 <= j < r.len() && j != i implies !(r[j].pattern_type == PatternType::Spike
            && r[j].message@ == d) by {
        if r[j].pattern_type == PatternType::Spike && r[j].message@ == d {
            assert(st.source_of(r[j], src[j]));
            assert(src[j] == m);
            assert(r[i].pattern_type == r[j].pattern_type);
        }
    }
}

} // verus!
