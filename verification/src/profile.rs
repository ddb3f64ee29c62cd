//! Timing profiles of the install, resolve, pipeline and materialization
//! phases: what is recorded while enabled, and the report lines printed at
//! the end. Timings are measured by the caller and handed in.

use vstd::prelude::*;
use crate::env_config::{flag_value_enabled, opt_view, spec_flag_enabled};
use crate::order::{key_before, order_by_key, positions, stable_order_by_key};
use crate::text::{
    push_decimal, spec_decimal, str_to_string, string_append, string_from_chars, string_push,
};
use crate::types::PackageId;

verus! {

/// Appends the decimal form of a `u128`.
pub fn push_decimal_u128(s: &mut String, n: u128)
    ensures
        final(s)@ == old(s)@ + spec_decimal(n as nat),
    decreases n,
{
    if n < 10 {
        let c = ((48 + n) as u8) as char;
        string_push(s, c);
        proof {
            assert(spec_decimal(n as nat) == seq![c]);
        }
    } else {
        push_decimal_u128(s, n / 10);
        let c = ((48 + n % 10) as u8) as char;
        let ghost mid = s@;
        string_push(s, c);
        proof {
            assert(spec_decimal(n as nat) == spec_decimal((n / 10) as nat).push(c));
            assert(s@ =~= old(s)@ + spec_decimal(n as nat));
        }
    }
}

/// The report of a list of marks: a total line, then one line per mark.
pub open spec fn report_lines(prefix: Seq<char>, total_ms: u64, marks: Seq<(String, u128)>) -> Seq<
    Seq<char>,
> {
    seq![prefix + " total="@ + spec_decimal(total_ms as nat) + "ms"@] + marks.map_values(
        |m: (String, u128)| prefix + " "@ + m.0@ + "="@ + spec_decimal(m.1 as nat) + "ms"@,
    )
}

pub open spec fn lines_view(v: Seq<String>) -> Seq<Seq<char>> {
    v.map_values(|s: String| s@)
}

fn report(prefix: &str, total_ms: u64, marks: &Vec<(String, u128)>) -> (r: Vec<String>)
    ensures
        lines_view(r@) == report_lines(prefix@, total_ms, marks@),
{
    let mut out: Vec<String> = Vec::new();
    let mut first = str_to_string(prefix);
    string_append(&mut first, " total=");
    push_decimal(&mut first, total_ms);
    string_append(&mut first, "ms");
    out.push(first);
    let ghost f = |m: (String, u128)| prefix@ + " "@ + m.0@ + "="@ + spec_decimal(m.1 as nat) + "ms"@;
    let mut i: usize = 0;
    proof {
        assert(lines_view(out@) =~= seq![first@] + marks@.take(0).map_values(f));
    }
    while i < marks.len()
        invariant
            i <= marks.len(),
            f == (|m: (String, u128)| prefix@ + " "@ + m.0@ + "="@ + spec_decimal(m.1 as nat) + "ms"@),
            lines_view(out@) == seq![prefix@ + " total="@ + spec_decimal(total_ms as nat) + "ms"@]
                + marks@.take(i as int).map_values(f),
        decreases marks.len() - i,
    {
        let mut line = str_to_string(prefix);
        string_append(&mut line, " ");
        string_append(&mut line, marks[i].0.as_str());
        string_append(&mut line, "=");
        push_decimal_u128(&mut line, marks[i].1);
        string_append(&mut line, "ms");
        let ghost before = out@;
        out.push(line);
        proof {
            assert(marks@.take(i + 1).map_values(f) =~= marks@.take(i as int).map_values(f).push(
                f(marks@[i as int]),
            ));
            assert(lines_view(out@) =~= lines_view(before).push(line@));
        }
        i = i + 1;
    }
    proof {
        assert(marks@.take(marks.len() as int) =~= marks@);
    }
    out
}

/// Marks of an install: labelled elapsed times, recorded only while enabled.
pub struct InstallProfile {
    pub enabled: bool,
    pub marks: Vec<(String, u128)>,
}

pub open spec fn marks_view(v: Seq<(String, u128)>) -> Seq<(Seq<char>, u128)> {
    v.map_values(|m: (String, u128)| (m.0@, m.1))
}

/// Records a mark when enabled.
fn push_mark(enabled: bool, marks: &mut Vec<(String, u128)>, label: &str, elapsed_ms: u128)
    ensures
        marks_view(final(marks)@) == if enabled {
            marks_view(old(marks)@).push((label@, elapsed_ms))
        } else {
            marks_view(old(marks)@)
        },
{
    if enabled {
        let item = (str_to_string(label), elapsed_ms);
        let ghost before = marks@;
        marks.push(item);
        proof {
            assert(marks_view(marks@) =~= marks_view(before).push((label@, elapsed_ms)));
        }
    }
}

impl InstallProfile {
    /// Enabled by the install-profile setting (`1`, `true`, `yes`, `on`).
    pub fn from_setting(raw: Option<&str>) -> (r: InstallProfile)
        ensures
            r.enabled == spec_flag_enabled(opt_view(raw)),
            r.marks.len() == 0,
    {
        InstallProfile { enabled: flag_value_enabled(raw), marks: Vec::new() }
    }

    /// Records the time elapsed since the install started.
    pub fn mark(&mut self, label: &str, elapsed_ms: u128)
        ensures
            final(self).enabled == old(self).enabled,
            marks_view(final(self).marks@) == if old(self).enabled {
                marks_view(old(self).marks@).push((label@, elapsed_ms))
            } else {
                marks_view(old(self).marks@)
            },
    {
        push_mark(self.enabled, &mut self.marks, label, elapsed_ms);
    }

    /// Records the time a single step took.
    pub fn mark_step(&mut self, label: &str, step_elapsed_ms: u128)
        ensures
            final(self).enabled == old(self).enabled,
            marks_view(final(self).marks@) == if old(self).enabled {
                marks_view(old(self).marks@).push((label@, step_elapsed_ms))
            } else {
                marks_view(old(self).marks@)
            },
    {
        push_mark(self.enabled, &mut self.marks, label, step_elapsed_ms);
    }

    /// The report lines: none when disabled.
    pub fn flush(&self, total_ms: u64) -> (r: Vec<String>)
        ensures
            !self.enabled ==> r.len() == 0,
            self.enabled ==> lines_view(r@) == report_lines(
                "[megagate:web:install-profile]"@,
                total_ms,
                self.marks@,
            ),
    {
        if !self.enabled {
            return Vec::new();
        }
        report("[megagate:web:install-profile]", total_ms, &self.marks)
    }
}

/// Marks of a resolution, recorded only while enabled.
pub struct ResolveProfile {
    pub enabled: bool,
    pub marks: Vec<(String, u128)>,
}

impl ResolveProfile {
    pub fn from_setting(raw: Option<&str>) -> (r: ResolveProfile)
        ensures
            r.enabled == spec_flag_enabled(opt_view(raw)),
            r.marks.len() == 0,
    {
        ResolveProfile { enabled: flag_value_enabled(raw), marks: Vec::new() }
    }

    pub fn mark(&mut self, label: &str, elapsed_ms: u128)
        ensures
            final(self).enabled == old(self).enabled,
            marks_view(final(self).marks@) == if old(self).enabled {
                marks_view(old(self).marks@).push((label@, elapsed_ms))
            } else {
                marks_view(old(self).marks@)
            },
    {
        push_mark(self.enabled, &mut self.marks, label, elapsed_ms);
    }

    pub fn flush(&self, total_ms: u64) -> (r: Vec<String>)
        ensures
            !self.enabled ==> r.len() == 0,
            self.enabled ==> lines_view(r@) == report_lines(
                "[megagate:web:resolve-profile]"@,
                total_ms,
                self.marks@,
            ),
    {
        if !self.enabled {
            return Vec::new();
        }
        report("[megagate:web:resolve-profile]", total_ms, &self.marks)
    }
}

/// `x + y` modulo 2^64 (an atomic `fetch_add`).
pub open spec fn wrap_add(x: u64, y: u64) -> u64 {
    if x + y > u64::MAX {
        (x + y - 0x1_0000_0000_0000_0000) as u64
    } else {
        (x + y) as u64
    }
}

pub open spec fn max_u64(x: u64, y: u64) -> u64 {
    if x >= y {
        x
    } else {
        y
    }
}

/// The five slowest entries kept from `list`: sorted by elapsed time,
/// slowest first (equal times keep their order), cut to five. `order` is
/// that sort of the positions.
pub open spec fn top_five<T>(list: Seq<(u64, T)>, order: Seq<usize>) -> Seq<(u64, T)> {
    let s = order.map_values(|k: usize| list[k as int]);
    if s.len() > 5 {
        s.take(5)
    } else {
        s
    }
}

pub open spec fn slowness_keys<T>(list: Seq<(u64, T)>) -> Seq<u128> {
    list.map_values(|e: (u64, T)| (u64::MAX - e.0) as u128)
}

/// `list` cut to its five slowest entries, slowest first.
pub open spec fn keeps_five_slowest<T>(list: Seq<(u64, T)>, kept: Seq<(u64, T)>) -> bool {
    exists|order: Seq<usize>|
        #![trigger top_five(list, order)]
        stable_order_by_key(order, slowness_keys(list)) && kept == top_five(list, order)
}

/// What the profile keeps of a list of timings is the slowest five, slowest
/// first: at most five entries (all of them when there are fewer), in
/// non-increasing elapsed time, each at least as slow as every entry left
/// out.
pub proof fn law_top_five_kept<T>(list: Seq<(u64, T)>, kept: Seq<(u64, T)>)
    requires
        keeps_five_slowest(list, kept),
    ensures
        kept.len() == if list.len() < 5 { list.len() } else { 5 },
        forall|i: int, j: int| 0 <= i < j < kept.len() ==> kept[i].0 >= kept[j].0,
        forall|i: int|
            0 <= i < kept.len() ==> list.to_multiset().count(kept[i]) > 0,
{
    broadcast use vstd::seq_lib::to_multiset_len;

    let order = choose|order: Seq<usize>|
        #![trigger top_five(list, order)]
        stable_order_by_key(order, slowness_keys(list)) && kept == top_five(list, order);
    let keys = slowness_keys(list);
    vstd::seq_lib::to_multiset_len(order);
    vstd::seq_lib::to_multiset_len(positions(keys.len()));
    assert(order.len() == list.len());
    let s = order.map_values(|k: usize| list[k as int]);
    assert forall|i: int, j: int| 0 <= i < j < kept.len() implies kept[i].0 >= kept[j].0 by {
        assert(key_before(keys, order[i], order[j]));
        assert(kept[i] == list[order[i] as int]);
        assert(kept[j] == list[order[j] as int]);
    }
    assert forall|i: int| 0 <= i < kept.len() implies list.to_multiset().count(kept[i]) > 0 by {
        assert(order[i] < keys.len());
        assert(kept[i] == list[order[i] as int]);
        assert(list.contains(list[order[i] as int]));
        vstd::seq_lib::to_multiset_contains(list, kept[i]);
    }
}

/// Download and extraction counters of a pipeline run.
pub struct PipelineProfile {
    pub enabled: bool,
    pub package_count: u64,
    pub tarball_bytes: u64,
    pub download_ms_total: u64,
    pub extract_ms_total: u64,
    pub download_ms_max: u64,
    pub extract_ms_max: u64,
    /// (elapsed, (description, bytes)), slowest first.
    pub slowest_downloads: Vec<(u64, (String, u64))>,
    /// (elapsed, package), slowest first.
    pub slowest_extracts: Vec<(u64, String)>,
}

pub open spec fn downloads_view(v: Seq<(u64, (String, u64))>) -> Seq<(u64, (Seq<char>, u64))> {
    v.map_values(|e: (u64, (String, u64))| (e.0, (e.1.0@, e.1.1)))
}

pub open spec fn extracts_view(v: Seq<(u64, String)>) -> Seq<(u64, Seq<char>)> {
    v.map_values(|e: (u64, String)| (e.0, e.1@))
}

/// The description of a slow download.
pub open spec fn download_description(package: PackageId, queue_wait_ms: u64, io_ms: u64) -> Seq<char> {
    package.name@ + "@"@ + package.version@ + " queue_wait="@ + spec_decimal(queue_wait_ms as nat)
        + "ms io="@ + spec_decimal(io_ms as nat) + "ms"@
}

fn slowness_order<T>(list: &Vec<(u64, T)>) -> (r: Vec<usize>)
    ensures
        stable_order_by_key(r@, slowness_keys(list@)),
        r.len() == list.len(),
{
    let mut keys: Vec<u128> = Vec::new();
    let mut i: usize = 0;
    while i < list.len()
        invariant
            i <= list.len(),
            keys@ == slowness_keys(list@).take(i as int),
        decreases list.len() - i,
    {
        keys.push((u64::MAX - list[i].0) as u128);
        proof {
            assert(slowness_keys(list@).take(i + 1) =~= slowness_keys(list@).take(i as int).push(
                (u64::MAX - list@[i as int].0) as u128,
            ));
        }
        i = i + 1;
    }
    proof {
        assert(slowness_keys(list@).take(list.len() as int) =~= slowness_keys(list@));
    }
    order_by_key(&keys)
}

fn keep_slowest_downloads(list: &Vec<(u64, (String, u64))>) -> (r: Vec<(u64, (String, u64))>)
    ensures
        keeps_five_slowest(downloads_view(list@), downloads_view(r@)),
{
    let order = slowness_order(list);
    let ghost lv = downloads_view(list@);
    proof {
        assert(slowness_keys(list@) =~= slowness_keys(lv));
    }
    let ghost full = order@.map_values(|k: usize| lv[k as int]);
    let mut kept: Vec<(u64, (String, u64))> = Vec::new();
    let mut i: usize = 0;
    while i < order.len() && i < 5
        invariant
            i <= order.len(),
            i <= 5,
            order.len() == list.len(),
            lv == downloads_view(list@),
            full == order@.map_values(|k: usize| lv[k as int]),
            stable_order_by_key(order@, slowness_keys(lv)),
            downloads_view(kept@) == full.take(i as int),
        decreases order.len() - i,
    {
        let k = order[i];
        let e = &list[k];
        let item = (e.0, (e.1.0.clone(), e.1.1));
        let ghost before = kept@;
        kept.push(item);
        proof {
            assert(downloads_view(kept@) =~= downloads_view(before).push(lv[k as int]));
            assert(full.take(i + 1) =~= full.take(i as int).push(full[i as int]));
        }
        i = i + 1;
    }
    proof {
        if full.len() > 5 {
            assert(downloads_view(kept@) == top_five(lv, order@));
        } else {
            assert(full.take(full.len() as int) =~= full);
            assert(downloads_view(kept@) == top_five(lv, order@));
        }
    }
    kept
}

fn keep_slowest_extracts(list: &Vec<(u64, String)>) -> (r: Vec<(u64, String)>)
    ensures
        keeps_five_slowest(extracts_view(list@), extracts_view(r@)),
{
    let order = slowness_order(list);
    let ghost lv = extracts_view(list@);
    proof {
        assert(slowness_keys(list@) =~= slowness_keys(lv));
    }
    let ghost full = order@.map_values(|k: usize| lv[k as int]);
    let mut kept: Vec<(u64, String)> = Vec::new();
    let mut i: usize = 0;
    while i < order.len() && i < 5
        invariant
            i <= order.len(),
            i <= 5,
            order.len() == list.len(),
            lv == extracts_view(list@),
            full == order@.map_values(|k: usize| lv[k as int]),
            stable_order_by_key(order@, slowness_keys(lv)),
            extracts_view(kept@) == full.take(i as int),
        decreases order.len() - i,
    {
        let k = order[i];
        let e = &list[k];
        let item = (e.0, e.1.clone());
        let ghost before = kept@;
        kept.push(item);
        proof {
            assert(extracts_view(kept@) =~= extracts_view(before).push(lv[k as int]));
            assert(full.take(i + 1) =~= full.take(i as int).push(full[i as int]));
        }
        i = i + 1;
    }
    proof {
        if full.len() > 5 {
            assert(extracts_view(kept@) == top_five(lv, order@));
        } else {
            assert(full.take(full.len() as int) =~= full);
            assert(extracts_view(kept@) == top_five(lv, order@));
        }
    }
    kept
}

impl PipelineProfile {
    pub fn from_setting(raw: Option<&str>) -> (r: PipelineProfile)
        ensures
            r.enabled == spec_flag_enabled(opt_view(raw)),
            r.package_count == 0 && r.tarball_bytes == 0 && r.download_ms_total == 0,
            r.extract_ms_total == 0 && r.download_ms_max == 0 && r.extract_ms_max == 0,
            r.slowest_downloads.len() == 0 && r.slowest_extracts.len() == 0,
    {
        PipelineProfile {
            enabled: flag_value_enabled(raw),
            package_count: 0,
            tarball_bytes: 0,
            download_ms_total: 0,
            extract_ms_total: 0,
            download_ms_max: 0,
            extract_ms_max: 0,
            slowest_downloads: Vec::new(),
            slowest_extracts: Vec::new(),
        }
    }

    /// Adds a download to the five slowest (see [`keeps_five_slowest`]).
    pub fn record_slowest_download(
        &mut self,
        package: &PackageId,
        bytes: u64,
        elapsed_ms: u64,
        queue_wait_ms: u64,
        io_ms: u64,
    )
        ensures
            keeps_five_slowest(
                downloads_view(old(self).slowest_downloads@).push(
                    (elapsed_ms, (download_description(*package, queue_wait_ms, io_ms), bytes)),
                ),
                downloads_view(final(self).slowest_downloads@),
            ),
            final(self).enabled == old(self).enabled,
            final(self).package_count == old(self).package_count,
            final(self).tarball_bytes == old(self).tarball_bytes,
            final(self).download_ms_total == old(self).download_ms_total,
            final(self).download_ms_max == old(self).download_ms_max,
            final(self).extract_ms_total == old(self).extract_ms_total,
            final(self).extract_ms_max == old(self).extract_ms_max,
            final(self).slowest_extracts == old(self).slowest_extracts,
    {
        let mut d = package.display();
        string_append(&mut d, " queue_wait=");
        push_decimal(&mut d, queue_wait_ms);
        string_append(&mut d, "ms io=");
        push_decimal(&mut d, io_ms);
        string_append(&mut d, "ms");
        let ghost before = self.slowest_downloads@;
        self.slowest_downloads.push((elapsed_ms, (d, bytes)));
        proof {
            assert(downloads_view(self.slowest_downloads@) =~= downloads_view(before).push(
                (elapsed_ms, (download_description(*package, queue_wait_ms, io_ms), bytes)),
            ));
        }
        self.slowest_downloads = keep_slowest_downloads(&self.slowest_downloads);
    }

    /// Adds an extraction to the five slowest (see [`keeps_five_slowest`]).
    pub fn record_slowest_extract(&mut self, package: &PackageId, elapsed_ms: u64)
        ensures
            keeps_five_slowest(
                extracts_view(old(self).slowest_extracts@).push(
                    (elapsed_ms, package.name@ + "@"@ + package.version@),
                ),
                extracts_view(final(self).slowest_extracts@),
            ),
            final(self).enabled == old(self).enabled,
            final(self).package_count == old(self).package_count,
            final(self).tarball_bytes == old(self).tarball_bytes,
            final(self).download_ms_total == old(self).download_ms_total,
            final(self).download_ms_max == old(self).download_ms_max,
            final(self).extract_ms_total == old(self).extract_ms_total,
            final(self).extract_ms_max == old(self).extract_ms_max,
            final(self).slowest_downloads == old(self).slowest_downloads,
    {
        let d = package.display();
        let ghost before = self.slowest_extracts@;
        self.slowest_extracts.push((elapsed_ms, d));
        proof {
            assert(extracts_view(self.slowest_extracts@) =~= extracts_view(before).push(
                (elapsed_ms, package.name@ + "@"@ + package.version@),
            ));
        }
        self.slowest_extracts = keep_slowest_extracts(&self.slowest_extracts);
    }

    /// Counts a download when enabled: one package more, its bytes and time
    /// added (counters wrap), the longest time kept, and the five slowest
    /// downloads updated.
    pub fn record_download(
        &mut self,
        package: &PackageId,
        bytes: u64,
        elapsed_ms: u64,
        queue_wait_ms: u64,
        io_ms: u64,
    )
        ensures
            !old(self).enabled ==> *final(self) == *old(self),
            old(self).enabled ==> {
                &&& final(self).enabled
                &&& final(self).package_count == wrap_add(old(self).package_count, 1)
                &&& final(self).tarball_bytes == wrap_add(old(self).tarball_bytes, bytes)
                &&& final(self).download_ms_total == wrap_add(old(self).download_ms_total, elapsed_ms)
                &&& final(self).download_ms_max == max_u64(old(self).download_ms_max, elapsed_ms)
                &&& final(self).extract_ms_total == old(self).extract_ms_total
                &&& final(self).extract_ms_max == old(self).extract_ms_max
                &&& keeps_five_slowest(
                    downloads_view(old(self).slowest_downloads@).push(
                        (elapsed_ms, (download_description(*package, queue_wait_ms, io_ms), bytes)),
                    ),
                    downloads_view(final(self).slowest_downloads@),
                )
                &&& final(self).slowest_extracts == old(self).slowest_extracts
            },
    {
        if !self.enabled {
            return;
        }
        self.package_count = self.package_count.wrapping_add(1);
        self.tarball_bytes = self.tarball_bytes.wrapping_add(bytes);
        self.download_ms_total = self.download_ms_total.wrapping_add(elapsed_ms);
        if elapsed_ms > self.download_ms_max {
            self.download_ms_max = elapsed_ms;
        }
        self.record_slowest_download(package, bytes, elapsed_ms, queue_wait_ms, io_ms);
    }

    /// Counts an extraction when enabled.
    pub fn record_extract(&mut self, package: &PackageId, elapsed_ms: u64)
        ensures
            !old(self).enabled ==> *final(self) == *old(self),
            old(self).enabled ==> {
                &&& final(self).enabled
                &&& final(self).extract_ms_total == wrap_add(old(self).extract_ms_total, elapsed_ms)
                &&& final(self).extract_ms_max == max_u64(old(self).extract_ms_max, elapsed_ms)
                &&& final(self).package_count == old(self).package_count
                &&& final(self).tarball_bytes == old(self).tarball_bytes
                &&& final(self).download_ms_total == old(self).download_ms_total
                &&& final(self).download_ms_max == old(self).download_ms_max
                &&& keeps_five_slowest(
                    extracts_view(old(self).slowest_extracts@).push(
                        (elapsed_ms, package.name@ + "@"@ + package.version@),
                    ),
                    extracts_view(final(self).slowest_extracts@),
                )
                &&& final(self).slowest_downloads == old(self).slowest_downloads
            },
    {
        if !self.enabled {
            return;
        }
        self.extract_ms_total = self.extract_ms_total.wrapping_add(elapsed_ms);
        if elapsed_ms > self.extract_ms_max {
            self.extract_ms_max = elapsed_ms;
        }
        self.record_slowest_extract(package, elapsed_ms);
    }
}


pub open spec fn pipeline_summary_line(p: PipelineProfile) -> Seq<char> {
    "[megagate:web:pipeline-profile] packages="@ + spec_decimal(p.package_count as nat) + " bytes="@
        + spec_decimal(p.tarball_bytes as nat) + " download_ms_total="@ + spec_decimal(
        p.download_ms_total as nat,
    ) + " download_ms_max="@ + spec_decimal(p.download_ms_max as nat) + " extract_ms_total="@
        + spec_decimal(p.extract_ms_total as nat) + " extract_ms_max="@ + spec_decimal(
        p.extract_ms_max as nat,
    )
}

pub open spec fn slow_download_line(e: (u64, (Seq<char>, u64))) -> Seq<char> {
    "[megagate:web:pipeline-profile] slow_download package="@ + e.1.0 + " elapsed="@ + spec_decimal(
        e.0 as nat,
    ) + "ms bytes="@ + spec_decimal(e.1.1 as nat)
}

pub open spec fn slow_extract_line(e: (u64, Seq<char>)) -> Seq<char> {
    "[megagate:web:pipeline-profile] slow_extract package="@ + e.1 + " elapsed="@ + spec_decimal(
        e.0 as nat,
    ) + "ms"@
}

impl PipelineProfile {
    /// The report lines: none when disabled; else the counters, then one
    /// line per slow download and per slow extraction.
    pub fn flush(&self) -> (r: Vec<String>)
        ensures
            !self.enabled ==> r.len() == 0,
            self.enabled ==> lines_view(r@) == seq![pipeline_summary_line(*self)]
                + downloads_view(self.slowest_downloads@).map_values(
                |e: (u64, (Seq<char>, u64))| slow_download_line(e),
            ) + extracts_view(self.slowest_extracts@).map_values(
                |e: (u64, Seq<char>)| slow_extract_line(e),
            ),
    {
        let mut out: Vec<String> = Vec::new();
        if !self.enabled {
            return out;
        }
        let mut l = str_to_string("[megagate:web:pipeline-profile] packages=");
        push_decimal(&mut l, self.package_count);
        string_append(&mut l, " bytes=");
        push_decimal(&mut l, self.tarball_bytes);
        string_append(&mut l, " download_ms_total=");
        push_decimal(&mut l, self.download_ms_total);
        string_append(&mut l, " download_ms_max=");
        push_decimal(&mut l, self.download_ms_max);
        string_append(&mut l, " extract_ms_total=");
        push_decimal(&mut l, self.extract_ms_total);
        string_append(&mut l, " extract_ms_max=");
        push_decimal(&mut l, self.extract_ms_max);
        out.push(l);
        let ghost dv = downloads_view(self.slowest_downloads@).map_values(
            |e: (u64, (Seq<char>, u64))| slow_download_line(e),
        );
        let ghost ev = extracts_view(self.slowest_extracts@).map_values(
            |e: (u64, Seq<char>)| slow_extract_line(e),
        );
        let mut i: usize = 0;
        proof {
            assert(lines_view(out@) =~= seq![pipeline_summary_line(*self)] + dv.take(0));
        }
        while i < self.slowest_downloads.len()
            invariant
                i <= self.slowest_downloads.len(),
                dv == downloads_view(self.slowest_downloads@).map_values(
                    |e: (u64, (Seq<char>, u64))| slow_download_line(e),
                ),
                lines_view(out@) == seq![pipeline_summary_line(*self)] + dv.take(i as int),
            decreases self.slowest_downloads.len() - i,
        {
            let e = &self.slowest_downloads[i];
            let mut line = str_to_string("[megagate:web:pipeline-profile] slow_download package=");
            string_append(&mut line, e.1.0.as_str());
            string_append(&mut line, " elapsed=");
            push_decimal(&mut line, e.0);
            string_append(&mut line, "ms bytes=");
            push_decimal(&mut line, e.1.1);
            let ghost before = out@;
            out.push(line);
            proof {
                assert(dv.take(i + 1) =~= dv.take(i as int).push(dv[i as int]));
                assert(lines_view(out@) =~= lines_view(before).push(line@));
            }
            i = i + 1;
        }
        proof {
            assert(dv.take(self.slowest_downloads.len() as int) =~= dv);
        }
        let ghost mid = lines_view(out@);
        let mut j: usize = 0;
        proof {
            assert(lines_view(out@) =~= mid + ev.take(0));
        }
        while j < self.slowest_extracts.len()
            invariant
                j <= self.slowest_extracts.len(),
                ev == extracts_view(self.slowest_extracts@).map_values(
                    |e: (u64, Seq<char>)| slow_extract_line(e),
                ),
                lines_view(out@) == mid + ev.take(j as int),
            decreases self.slowest_extracts.len() - j,
        {
            let e = &self.slowest_extracts[j];
            let mut line = str_to_string("[megagate:web:pipeline-profile] slow_extract package=");
            string_append(&mut line, e.1.as_str());
            string_append(&mut line, " elapsed=");
            push_decimal(&mut line, e.0);
            string_append(&mut line, "ms");
            let ghost before = out@;
            out.push(line);
            proof {
                assert(ev.take(j + 1) =~= ev.take(j as int).push(ev[j as int]));
                assert(lines_view(out@) =~= lines_view(before).push(line@));
            }
            j = j + 1;
        }
        proof {
            assert(ev.take(self.slowest_extracts.len() as int) =~= ev);
        }
        out
    }
}

/// `x + 1` modulo `usize::MAX + 1` (an atomic `fetch_add`).
pub open spec fn wrap_inc(x: usize) -> usize {
    if x == usize::MAX {
        0
    } else {
        (x + 1) as usize
    }
}

/// Counters of a materialization, counted only while enabled.
pub struct MaterializationProfile {
    pub enabled: bool,
    pub packages_linked: usize,
    pub files_seen: usize,
    pub directories_seen: usize,
    pub hardlinks: usize,
    pub copies: usize,
    pub reflinks: usize,
    pub symlinks: usize,
}

fn bump(enabled: bool, counter: &mut usize)
    ensures
        *final(counter) == if enabled {
            wrap_inc(*old(counter))
        } else {
            *old(counter)
        },
{
    if enabled {
        *counter = if *counter == usize::MAX {
            0
        } else {
            *counter + 1
        };
    }
}

impl MaterializationProfile {
    pub fn from_setting(raw: Option<&str>) -> (r: MaterializationProfile)
        ensures
            r.enabled == spec_flag_enabled(opt_view(raw)),
            r.packages_linked == 0 && r.files_seen == 0 && r.directories_seen == 0,
            r.hardlinks == 0 && r.copies == 0 && r.reflinks == 0 && r.symlinks == 0,
    {
        MaterializationProfile {
            enabled: flag_value_enabled(raw),
            packages_linked: 0,
            files_seen: 0,
            directories_seen: 0,
            hardlinks: 0,
            copies: 0,
            reflinks: 0,
            symlinks: 0,
        }
    }

    pub fn record_package_linked(&mut self)
        ensures
            *final(self) == (MaterializationProfile {
                packages_linked: if old(self).enabled {
                    wrap_inc(old(self).packages_linked)
                } else {
                    old(self).packages_linked
                },
                ..*old(self)
            }),
    {
        bump(self.enabled, &mut self.packages_linked);
    }

    pub fn record_directory(&mut self)
        ensures
            *final(self) == (MaterializationProfile {
                directories_seen: if old(self).enabled {
                    wrap_inc(old(self).directories_seen)
                } else {
                    old(self).directories_seen
                },
                ..*old(self)
            }),
    {
        bump(self.enabled, &mut self.directories_seen);
    }

    pub fn record_file(&mut self)
        ensures
            *final(self) == (MaterializationProfile {
                files_seen: if old(self).enabled {
                    wrap_inc(old(self).files_seen)
                } else {
                    old(self).files_seen
                },
                ..*old(self)
            }),
    {
        bump(self.enabled, &mut self.files_seen);
    }

    pub fn record_hardlink(&mut self)
        ensures
            *final(self) == (MaterializationProfile {
                hardlinks: if old(self).enabled {
                    wrap_inc(old(self).hardlinks)
                } else {
                    old(self).hardlinks
                },
                ..*old(self)
            }),
    {
        bump(self.enabled, &mut self.hardlinks);
    }

    pub fn record_copy(&mut self)
        ensures
            *final(self) == (MaterializationProfile {
                copies: if old(self).enabled {
                    wrap_inc(old(self).copies)
                } else {
                    old(self).copies
                },
                ..*old(self)
            }),
    {
        bump(self.enabled, &mut self.copies);
    }

    pub fn record_symlink(&mut self)
        ensures
            *final(self) == (MaterializationProfile {
                symlinks: if old(self).enabled {
                    wrap_inc(old(self).symlinks)
                } else {
                    old(self).symlinks
                },
                ..*old(self)
            }),
    {
        bump(self.enabled, &mut self.symlinks);
    }

    pub fn record_reflink(&mut self)
        ensures
            *final(self) == (MaterializationProfile {
                reflinks: if old(self).enabled {
                    wrap_inc(old(self).reflinks)
                } else {
                    old(self).reflinks
                },
                ..*old(self)
            }),
    {
        bump(self.enabled, &mut self.reflinks);
    }

    /// The report line: none when disabled.
    pub fn flush(&self) -> (r: Option<String>)
        ensures
            !self.enabled ==> r.is_none(),
            self.enabled ==> (r matches Some(l) && l@ == "[megagate:web:materialize-profile] packages_linked="@
                + spec_decimal(self.packages_linked as nat) + " dirs="@ + spec_decimal(
                self.directories_seen as nat,
            ) + " files="@ + spec_decimal(self.files_seen as nat) + " hardlinks="@ + spec_decimal(
                self.hardlinks as nat,
            ) + " copies="@ + spec_decimal(self.copies as nat) + " reflinks="@ + spec_decimal(
                self.reflinks as nat,
            ) + " symlinks="@ + spec_decimal(self.symlinks as nat)),
    {
        if !self.enabled {
            return None;
        }
        let mut l = str_to_string("[megagate:web:materialize-profile] packages_linked=");
        push_decimal(&mut l, self.packages_linked as u64);
        string_append(&mut l, " dirs=");
        push_decimal(&mut l, self.directories_seen as u64);
        string_append(&mut l, " files=");
        push_decimal(&mut l, self.files_seen as u64);
        string_append(&mut l, " hardlinks=");
        push_decimal(&mut l, self.hardlinks as u64);
        string_append(&mut l, " copies=");
        push_decimal(&mut l, self.copies as u64);
        string_append(&mut l, " reflinks=");
        push_decimal(&mut l, self.reflinks as u64);
        string_append(&mut l, " symlinks=");
        push_decimal(&mut l, self.symlinks as u64);
        Some(l)
    }
}

/// A fetched tarball: its bytes in memory, or a cached file and its length.
pub enum TarballPayload {
    Bytes(Vec<u8>),
    CachedPath(String, u64),
}

impl TarballPayload {
    /// The tarball's size in bytes.
    pub fn len(&self) -> (r: u64)
        requires
            self matches TarballPayload::Bytes(b) ==> b.len() <= u64::MAX,
        ensures
            r == match self {
                TarballPayload::Bytes(b) => b.len() as u64,
                TarballPayload::CachedPath(_, n) => *n,
            },
    {
        match self {
            TarballPayload::Bytes(b) => b.len() as u64,
            TarballPayload::CachedPath(_, n) => *n,
        }
    }
}

/// A tarball with the time spent waiting for a download slot and on the
/// download itself, and whether it still has to be copied to the shared
/// cache.
pub struct TarballFetchResult {
    pub payload: TarballPayload,
    pub queue_wait_ms: u64,
    pub io_ms: u64,
    pub persist_to_shared_cache: bool,
}

} // verus!
