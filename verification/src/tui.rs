//! The terminal client's state and the decisions it makes: which metric and
//! direction it shows, which sample and application are selected, how the
//! received history is trimmed, and how keys and the mouse change all that.
use vstd::prelude::*;

use crate::collector::{compact, compacted, snapshot_views, ProcessSnapshot, SnapshotView};
use crate::config::{span_millis_i64, Config, TimeSpan};
use crate::history::{in_time_order, retention_cutoff};
use crate::ipc::ServerMessage;
use crate::text::{chars_of, string_of};

verus! {

/// The metric a chart shows.
#[derive(Clone, Copy, Debug, PartialEq, Eq, Structural)]
pub enum MetricCategory {
    Cpu,
    Memory,
    Disk,
    Network,
}

/// Which way disk or network traffic is counted.
#[derive(Clone, Copy, Debug, PartialEq, Eq, Structural)]
pub enum TransferDirection {
    Incoming,
    Outgoing,
}

/// The metric after `m` in the cycle CPU, memory, disk, network.
pub open spec fn next_metric(m: MetricCategory) -> MetricCategory {
    match m {
        MetricCategory::Cpu => MetricCategory::Memory,
        MetricCategory::Memory => MetricCategory::Disk,
        MetricCategory::Disk => MetricCategory::Network,
        MetricCategory::Network => MetricCategory::Cpu,
    }
}

/// The other direction.
pub open spec fn other_direction(d: TransferDirection) -> TransferDirection {
    match d {
        TransferDirection::Incoming => TransferDirection::Outgoing,
        TransferDirection::Outgoing => TransferDirection::Incoming,
    }
}

impl MetricCategory {
    /// The next metric in the cycle CPU, memory, disk, network, CPU.
    pub fn next(self) -> (out: MetricCategory)
        ensures
            out == next_metric(self),
    {
        match self {
            MetricCategory::Cpu => MetricCategory::Memory,
            MetricCategory::Memory => MetricCategory::Disk,
            MetricCategory::Disk => MetricCategory::Network,
            MetricCategory::Network => MetricCategory::Cpu,
        }
    }

    /// The chart title of a metric in a direction; CPU and memory have no
    /// direction.
    pub fn title(self, direction: TransferDirection) -> (out: &'static str)
        ensures
            out@ == match (self, direction) {
                (MetricCategory::Cpu, _) => "CPU"@,
                (MetricCategory::Memory, _) => "内存"@,
                (MetricCategory::Disk, TransferDirection::Incoming) => "磁盘读取"@,
                (MetricCategory::Disk, TransferDirection::Outgoing) => "磁盘写入"@,
                (MetricCategory::Network, TransferDirection::Incoming) => "网络下载"@,
                (MetricCategory::Network, TransferDirection::Outgoing) => "网络上传"@,
            },
    {
        match (self, direction) {
            (MetricCategory::Cpu, _) => "CPU",
            (MetricCategory::Memory, _) => "内存",
            (MetricCategory::Disk, TransferDirection::Incoming) => "磁盘读取",
            (MetricCategory::Disk, TransferDirection::Outgoing) => "磁盘写入",
            (MetricCategory::Network, TransferDirection::Incoming) => "网络下载",
            (MetricCategory::Network, TransferDirection::Outgoing) => "网络上传",
        }
    }
}

/// A rectangle of terminal cells.
#[derive(Clone, Copy, Debug, PartialEq, Eq, Structural)]
pub struct Area {
    pub x: u16,
    pub y: u16,
    pub width: u16,
    pub height: u16,
}

/// `a + b`, at most `u16::MAX`.
pub open spec fn saturating_add_u16(a: u16, b: u16) -> u16 {
    if a + b > u16::MAX {
        u16::MAX
    } else {
        (a + b) as u16
    }
}

/// `a - b`, at least 0.
pub open spec fn saturating_sub_u16(a: u16, b: u16) -> u16 {
    if a >= b {
        (a - b) as u16
    } else {
        0
    }
}

/// The cell `(column, row)` lies in `area`, whose right and bottom edges are
/// clamped to `u16::MAX`.
pub open spec fn area_contains(area: Area, column: u16, row: u16) -> bool {
    &&& area.x <= column
    &&& column < saturating_add_u16(area.x, area.width)
    &&& area.y <= row
    &&& row < saturating_add_u16(area.y, area.height)
}

impl Area {
    /// An area with nothing in it, at the origin.
    pub fn empty() -> (out: Area)
        ensures
            out == (Area { x: 0, y: 0, width: 0, height: 0 }),
    {
        Area { x: 0, y: 0, width: 0, height: 0 }
    }

    /// Whether the cell `(column, row)` lies in this area.
    pub fn contains(self, column: u16, row: u16) -> (out: bool)
        ensures
            out == area_contains(self, column, row),
    {
        let right: u16 = if self.x > u16::MAX - self.width {
            u16::MAX
        } else {
            self.x + self.width
        };
        let bottom: u16 = if self.y > u16::MAX - self.height {
            u16::MAX
        } else {
            self.y + self.height
        };
        self.x <= column && column < right && self.y <= row && row < bottom
    }

    /// The area inside a one-cell border: moved one cell right and down and
    /// two cells narrower and shorter, each clamped to the `u16` range.
    pub fn inner(self) -> (out: Area)
        ensures
            out == (Area {
                x: saturating_add_u16(self.x, 1),
                y: saturating_add_u16(self.y, 1),
                width: saturating_sub_u16(self.width, 2),
                height: saturating_sub_u16(self.height, 2),
            }),
    {
        Area {
            x: self.x.saturating_add(1),
            y: self.y.saturating_add(1),
            width: self.width.saturating_sub(2),
            height: self.height.saturating_sub(2),
        }
    }
}

/// Where the live chart begins: it shows the newest `width` samples, or
/// all of them when fewer, one sample per column.
pub open spec fn live_start(len: int, width: int) -> int {
    if len > width {
        len - width
    } else {
        0
    }
}

/// The first sample the chart shows: the start at which a history view
/// froze it (no later than the live start), else the live start.
pub open spec fn window_start(len: int, width: int, viewport: Option<usize>) -> int {
    match viewport {
        Some(s) => if s < live_start(len, width) {
            s as int
        } else {
            live_start(len, width)
        },
        None => live_start(len, width),
    }
}

/// The samples shown from `start` in `width` columns: the first and one
/// past the last, both within the history.
pub open spec fn window_bounds(len: int, start: int, width: int) -> (int, int) {
    let s = if start < len {
        start
    } else {
        len
    };
    let e = if s + width < len {
        s + width
    } else {
        len
    };
    (s, e)
}

/// The chart column of sample `index` of `count` in a chart `width` columns
/// wide that shows the newest samples, panned back just far enough to show
/// the sample: the newest sample is at the right edge (or after the last
/// sample when fewer than `width`), an old one at the left edge.
pub open spec fn column_of(index: int, count: int, width: int) -> int {
    if count == 0 || width == 0 {
        0
    } else {
        let i = if index < count - 1 {
            index
        } else {
            count - 1
        };
        let s = if i < live_start(count, width) {
            i
        } else {
            live_start(count, width)
        };
        i - s
    }
}

/// The chart column of a selected sample.
pub fn selected_column(index: usize, count: usize, width: usize) -> (out: usize)
    ensures
        out == column_of(index as int, count as int, width as int),
{
    if count == 0 || width == 0 {
        return 0;
    }
    let i = if index < count - 1 {
        index
    } else {
        count - 1
    };
    let live = if count > width {
        count - width
    } else {
        0
    };
    let s = if i < live {
        i
    } else {
        live
    };
    i - s
}

/// The samples from `start` (at most the end) in a chart `width` columns
/// wide, one per column.
pub fn window(snapshots: &[ProcessSnapshot], start: usize, width: usize) -> (out: Vec<&ProcessSnapshot>)
    ensures
        ({
            let (s, e) = window_bounds(snapshots@.len() as int, start as int, width as int);
            &&& out@.len() == e - s
            &&& forall|i: int| 0 <= i < out@.len() ==> *(#[trigger] out@[i]) == snapshots@[s + i]
        }),
{
    let n = snapshots.len();
    let s = if start < n {
        start
    } else {
        n
    };
    let e = if width < n - s {
        s + width
    } else {
        n
    };
    let mut out: Vec<&ProcessSnapshot> = Vec::new();
    let mut k: usize = s;
    while k < e
        invariant
            n == snapshots@.len(),
            s <= k <= e <= n,
            out@.len() == k - s,
            forall|i: int| 0 <= i < out@.len() ==> *(#[trigger] out@[i]) == snapshots@[s + i],
        decreases e - k,
    {
        out.push(&snapshots[k]);
        k = k + 1;
    }
    out
}

/// The samples a live chart of `maximum` columns shows: the newest
/// `maximum`, or all of them when fewer, oldest first.
pub fn downsample(snapshots: &[ProcessSnapshot], maximum: usize) -> (out: Vec<&ProcessSnapshot>)
    ensures
        out@.len() == if snapshots@.len() <= maximum {
            snapshots@.len() as int
        } else {
            maximum as int
        },
        forall|i: int|
            0 <= i < out@.len() ==> *(#[trigger] out@[i]) == snapshots@[snapshots@.len() - out@.len()
                + i],
{
    let n = snapshots.len();
    let start = if n > maximum {
        n - maximum
    } else {
        0
    };
    window(snapshots, start, maximum)
}

/// At most `maximum` characters of `value`; when it is longer (and
/// `maximum` is not 0) the last kept character gives way to `…`.
pub open spec fn truncated(value: Seq<char>, maximum: nat) -> Seq<char> {
    if value.len() > maximum && maximum > 0 {
        value.take(maximum - 1).push('\u{2026}')
    } else if value.len() > maximum {
        seq![]
    } else {
        value
    }
}

/// Shortens `value` to fit `maximum` characters.
pub fn truncate(value: &str, maximum: usize) -> (out: String)
    ensures
        out@ == truncated(value@, maximum as nat),
{
    let chars = chars_of(value);
    if chars.len() > maximum {
        if maximum > 0 {
            let mut kept = crate::text::slice_of(&chars, 0, maximum - 1);
            kept.push('\u{2026}');
            return string_of(&kept);
        }
        return String::new();
    }
    string_of(&chars)
}

// ---------------------------------------------------------------------------
// Selection
// ---------------------------------------------------------------------------

/// The index of the selected sample: the hovered one (clamped to the last)
/// or else the last; none when there are no samples.
pub open spec fn selection_index(len: nat, hovered: Option<usize>) -> Option<int> {
    if len == 0 {
        None
    } else {
        match hovered {
            Some(h) => if h < len - 1 {
                Some(h as int)
            } else {
                Some(len - 1)
            },
            None => Some(len - 1),
        }
    }
}

/// The snapshot the panels show: the selected sample, or the full latest
/// snapshot when it has the sample's time; the latest when there are no
/// samples.
pub open spec fn selection(
    history: Seq<SnapshotView>,
    hovered: Option<usize>,
    latest: Option<SnapshotView>,
) -> Option<SnapshotView> {
    match selection_index(history.len(), hovered) {
        Some(i) => match latest {
            Some(l) => if history[i].timestamp_unix_ms == l.timestamp_unix_ms {
                Some(l)
            } else {
                Some(history[i])
            },
            None => Some(history[i]),
        },
        None => latest,
    }
}

/// The number of applications the panels list.
pub open spec fn application_count_of(
    history: Seq<SnapshotView>,
    hovered: Option<usize>,
    latest: Option<SnapshotView>,
) -> nat {
    match selection(history, hovered, latest) {
        Some(s) => s.applications.len(),
        None => 0,
    }
}

/// The last application index, or 0 when there are none.
pub open spec fn last_application(
    history: Seq<SnapshotView>,
    hovered: Option<usize>,
    latest: Option<SnapshotView>,
) -> int {
    let n = application_count_of(history, hovered, latest);
    if n > 0 {
        n - 1
    } else {
        0
    }
}

/// The selected application kept within the list.
pub open spec fn clamped(
    selected: usize,
    history: Seq<SnapshotView>,
    hovered: Option<usize>,
    latest: Option<SnapshotView>,
) -> usize {
    let m = last_application(history, hovered, latest);
    if selected <= m {
        selected
    } else {
        m as usize
    }
}

/// `a - b`, at least 0.
pub open spec fn saturating_sub_usize(a: usize, b: usize) -> usize {
    if a >= b {
        (a - b) as usize
    } else {
        0
    }
}

/// The history, hovered sample and selected application after the oldest
/// `count` samples go: the hovered index moves with its sample (at least to
/// the first) and the application selection is kept within the list.
pub open spec fn drained(
    history: Seq<SnapshotView>,
    hovered: Option<usize>,
    selected: usize,
    latest: Option<SnapshotView>,
    count: nat,
) -> (Seq<SnapshotView>, Option<usize>, usize) {
    let h = history.skip(count as int);
    let hov = match hovered {
        Some(i) => Some(saturating_sub_usize(i, count as usize)),
        None => None,
    };
    (h, hov, clamped(selected, h, hov, latest))
}

/// How many leading samples are older than `cutoff`.
pub open spec fn leading_older(history: Seq<SnapshotView>, cutoff: int) -> nat
    decreases history.len(),
{
    if history.len() > 0 && history[0].timestamp_unix_ms < cutoff {
        1 + leading_older(history.drop_first(), cutoff)
    } else {
        0
    }
}

/// The received history trimmed as the service trims its own: first to at
/// most `maximum` (never below 2) samples, then without the leading samples
/// older than the retention before the newest.
pub open spec fn trimmed(
    history: Seq<SnapshotView>,
    hovered: Option<usize>,
    selected: usize,
    latest: Option<SnapshotView>,
    maximum: usize,
    retention: TimeSpan,
) -> (Seq<SnapshotView>, Option<usize>, usize) {
    let m = if maximum < 2 {
        2
    } else {
        maximum as nat
    };
    let step1 = if history.len() > m {
        drained(history, hovered, selected, latest, (history.len() - m) as nat)
    } else {
        (history, hovered, selected)
    };
    if step1.0.len() == 0 {
        step1
    } else {
        let cutoff = retention_cutoff(step1.0.last().timestamp_unix_ms, retention);
        let k = leading_older(step1.0, cutoff);
        if k > 0 {
            drained(step1.0, step1.1, step1.2, latest, k)
        } else {
            step1
        }
    }
}

/// A frozen chart start after the oldest `count` samples go: it moves with
/// its sample (at least to the first).
pub open spec fn shifted(viewport: Option<usize>, count: nat) -> Option<usize> {
    match viewport {
        Some(s) => Some(saturating_sub_usize(s, count as usize)),
        None => None,
    }
}

/// How many of the oldest samples trimming drops: those beyond `maximum`
/// (never below 2), then the leading ones older than the retention before
/// the newest.
pub open spec fn trim_count(history: Seq<SnapshotView>, maximum: usize, retention: TimeSpan) -> nat {
    let m = if maximum < 2 {
        2
    } else {
        maximum as nat
    };
    let first: nat = if history.len() > m {
        (history.len() - m) as nat
    } else {
        0
    };
    let rest = history.skip(first as int);
    if rest.len() == 0 {
        first
    } else {
        first + leading_older(rest, retention_cutoff(rest.last().timestamp_unix_ms, retention))
    }
}

proof fn lemma_shifted_zero(v: Option<usize>)
    ensures
        shifted(v, 0) == v,
{
}

proof fn lemma_shifted_twice(v: Option<usize>, a: nat, b: nat)
    requires
        a + b <= usize::MAX,
    ensures
        shifted(shifted(v, a), b) == shifted(v, a + b),
{
}

/// The view of an optional snapshot.
pub open spec fn optional_view(s: Option<ProcessSnapshot>) -> Option<SnapshotView> {
    match s {
        Some(x) => Some(x@),
        None => None,
    }
}

/// A key the client reacts to.
#[derive(Clone, Copy, Debug, PartialEq, Eq, Structural)]
pub enum KeyInput {
    Char(char),
    Esc,
    Tab,
    Left,
    Right,
    Up,
    Down,
    Other,
}

/// A kind of mouse event the client reacts to.
#[derive(Clone, Copy, Debug, PartialEq, Eq, Structural)]
pub enum MouseKind {
    Moved,
    Down,
    Drag,
    ScrollUp,
    ScrollDown,
    Other,
}

/// A terminal event, as far as the client reads it.
#[derive(Clone, Copy, Debug, PartialEq, Eq, Structural)]
pub enum InputEvent {
    /// A key; `press` is false for a release or repeat.
    Key { code: KeyInput, press: bool },
    Mouse { kind: MouseKind, column: u16, row: u16 },
    Other,
}

/// The terminal client's state.
pub struct App {
    pub config: Config,
    pub snapshots: Vec<ProcessSnapshot>,
    pub latest: Option<ProcessSnapshot>,
    pub metric: MetricCategory,
    pub direction: TransferDirection,
    pub hovered_index: Option<usize>,
    /// The first sample a history view froze the chart at; none while the
    /// chart follows the newest samples.
    pub viewport_start: Option<usize>,
    pub selected_application: usize,
    pub chart_area: Area,
    pub applications_area: Area,
    pub connected: bool,
    pub error: Option<String>,
}

impl App {
    /// The received history as values.
    pub open spec fn history(&self) -> Seq<SnapshotView> {
        snapshot_views(self.snapshots@)
    }

    /// The latest snapshot as values.
    pub open spec fn latest_snapshot(&self) -> Option<SnapshotView> {
        optional_view(self.latest)
    }

    /// The first sample the chart shows.
    pub open spec fn shown_from(&self) -> int {
        window_start(self.snapshots@.len() as int, self.chart_area.width as int, self.viewport_start)
    }

    /// A client with no data yet, showing CPU, connected.
    pub fn new(config: Config) -> (out: App)
        ensures
            out.config == config,
            out.snapshots@.len() == 0,
            out.latest is None,
            out.metric == MetricCategory::Cpu,
            out.direction == TransferDirection::Incoming,
            out.hovered_index is None,
            out.viewport_start is None,
            out.selected_application == 0,
            out.chart_area == (Area { x: 0, y: 0, width: 0, height: 0 }),
            out.applications_area == (Area { x: 0, y: 0, width: 0, height: 0 }),
            out.connected,
            out.error is None,
    {
        App {
            config,
            snapshots: Vec::new(),
            latest: None,
            metric: MetricCategory::Cpu,
            direction: TransferDirection::Incoming,
            hovered_index: None,
            viewport_start: None,
            selected_application: 0,
            chart_area: Area::empty(),
            applications_area: Area::empty(),
            connected: true,
            error: None,
        }
    }

    /// The first sample the chart shows.
    pub fn window_start(&self) -> (out: usize)
        ensures
            out == self.shown_from(),
            out <= self.snapshots@.len(),
    {
        let n = self.snapshots.len();
        let w = self.chart_area.width as usize;
        let live = if n > w {
            n - w
        } else {
            0
        };
        match self.viewport_start {
            Some(s) => if s < live {
                s
            } else {
                live
            },
            None => live,
        }
    }

    /// The samples the chart shows, one per column, oldest first.
    pub fn visible_samples(&self) -> (out: Vec<&ProcessSnapshot>)
        ensures
            ({
                let (s, e) = window_bounds(
                    self.snapshots@.len() as int,
                    self.shown_from(),
                    self.chart_area.width as int,
                );
                &&& s == self.shown_from()
                &&& out@.len() == e - s
                &&& forall|i: int|
                    0 <= i < out@.len() ==> *(#[trigger] out@[i]) == self.snapshots@[s + i]
            }),
    {
        let start = self.window_start();
        window(self.snapshots.as_slice(), start, self.chart_area.width as usize)
    }

    /// The chart column of the selected sample, when the chart shows it.
    pub fn cursor_column(&self) -> (out: Option<usize>)
        ensures
            match selection_index(self.snapshots@.len(), self.hovered_index) {
                Some(i) => if self.shown_from() <= i < self.shown_from() + self.chart_area.width {
                    out == Some((i - self.shown_from()) as usize)
                } else {
                    out is None
                },
                None => out is None,
            },
    {
        let start = self.window_start();
        let w = self.chart_area.width as usize;
        match self.selected_snapshot_index() {
            Some(i) => if start <= i && i - start < w {
                Some(i - start)
            } else {
                None
            },
            None => None,
        }
    }

    /// The index of the selected sample.
    pub fn selected_snapshot_index(&self) -> (out: Option<usize>)
        ensures
            match (out, selection_index(self.snapshots@.len(), self.hovered_index)) {
                (Some(i), Some(j)) => i == j,
                (None, None) => true,
                _ => false,
            },
    {
        let n = self.snapshots.len();
        if n == 0 {
            return None;
        }
        match self.hovered_index {
            Some(h) => if h < n - 1 {
                Some(h)
            } else {
                Some(n - 1)
            },
            None => Some(n - 1),
        }
    }

    /// The snapshot the panels show.
    pub fn selected_snapshot(&self) -> (out: Option<&ProcessSnapshot>)
        ensures
            match out {
                Some(s) => selection(self.history(), self.hovered_index, self.latest_snapshot())
                    == Some(s@),
                None => selection(self.history(), self.hovered_index, self.latest_snapshot()) is None,
            },
    {
        match self.selected_snapshot_index() {
            Some(i) => {
                let s = &self.snapshots[i];
                match &self.latest {
                    Some(l) => if s.timestamp_unix_ms == l.timestamp_unix_ms {
                        Some(l)
                    } else {
                        Some(s)
                    },
                    None => Some(s),
                }
            },
            None => match &self.latest {
                Some(l) => Some(l),
                None => None,
            },
        }
    }

    /// Whether the panels show a past sample rather than the latest one.
    pub fn selection_is_historical(&self) -> (out: bool)
        ensures
            out == match (
                selection(self.history(), self.hovered_index, self.latest_snapshot()),
                self.latest_snapshot(),
            ) {
                (Some(s), Some(l)) => s.timestamp_unix_ms != l.timestamp_unix_ms,
                _ => false,
            },
    {
        match (self.selected_snapshot(), &self.latest) {
            (Some(s), Some(l)) => s.timestamp_unix_ms != l.timestamp_unix_ms,
            _ => false,
        }
    }

    /// How many applications the panels list.
    pub fn application_count(&self) -> (out: usize)
        ensures
            out == application_count_of(self.history(), self.hovered_index, self.latest_snapshot()),
    {
        match self.selected_snapshot() {
            Some(s) => s.applications.len(),
            None => 0,
        }
    }

    /// Keeps the selected application within the list.
    pub fn clamp_selection(&mut self)
        ensures
            final(self).selected_application == clamped(
                old(self).selected_application,
                old(self).history(),
                old(self).hovered_index,
                old(self).latest_snapshot(),
            ),
            final(self).snapshots == old(self).snapshots,
            final(self).latest == old(self).latest,
            final(self).hovered_index == old(self).hovered_index,
            final(self).viewport_start == old(self).viewport_start,
            final(self).metric == old(self).metric,
            final(self).direction == old(self).direction,
            final(self).config == old(self).config,
            final(self).chart_area == old(self).chart_area,
            final(self).applications_area == old(self).applications_area,
            final(self).connected == old(self).connected,
            final(self).error == old(self).error,
    {
        let n = self.application_count();
        let maximum = if n > 0 {
            n - 1
        } else {
            0
        };
        if self.selected_application > maximum {
            self.selected_application = maximum;
        }
    }

    /// Selects sample `index` (at most the last); nothing happens when there
    /// are no samples. Selecting the newest sample returns to the live chart;
    /// selecting an older one freezes the chart where it is, panned just far
    /// enough to show the sample.
    pub fn select_snapshot(&mut self, index: usize)
        ensures
            old(self).snapshots@.len() == 0 ==> *final(self) == *old(self),
            old(self).snapshots@.len() > 0 ==> {
                &&& (final(self).hovered_index, final(self).selected_application) == selected_at(
                    *old(self),
                    index as int,
                )
                &&& final(self).viewport_start == selected_viewport(*old(self), index as int)
                &&& final(self).metric == old(self).metric
                &&& final(self).direction == old(self).direction
                &&& same_except_selection(*final(self), *old(self))
            },
    {
        let n = self.snapshots.len();
        if n == 0 {
            return;
        }
        let t = if index < n - 1 {
            index
        } else {
            n - 1
        };
        if t == n - 1 {
            self.hovered_index = None;
            self.viewport_start = None;
        } else {
            let s = self.window_start();
            let w = self.chart_area.width as usize;
            let start = if t < s || w == 0 {
                t
            } else if t - s >= w {
                t - w + 1
            } else {
                s
            };
            self.hovered_index = Some(t);
            self.viewport_start = Some(start);
        }
        self.clamp_selection();
    }

    /// Drops the oldest `count` samples; the hovered index follows its
    /// sample and the application selection stays within the list.
    pub fn drain_oldest(&mut self, count: usize)
        requires
            count <= old(self).snapshots@.len(),
        ensures
            (final(self).history(), final(self).hovered_index, final(self).selected_application)
                == drained(
                old(self).history(),
                old(self).hovered_index,
                old(self).selected_application,
                old(self).latest_snapshot(),
                count as nat,
            ),
            final(self).viewport_start == shifted(old(self).viewport_start, count as nat),
            final(self).latest == old(self).latest,
            final(self).metric == old(self).metric,
            final(self).direction == old(self).direction,
            final(self).config == old(self).config,
            final(self).chart_area == old(self).chart_area,
            final(self).applications_area == old(self).applications_area,
            final(self).connected == old(self).connected,
            final(self).error == old(self).error,
    {
        let tail = self.snapshots.split_off(count);
        self.snapshots = tail;
        assert(self.history() =~= old(self).history().skip(count as int));
        if let Some(index) = self.hovered_index {
            self.hovered_index = Some(
                if index >= count {
                    index - count
                } else {
                    0
                },
            );
        }
        if let Some(start) = self.viewport_start {
            self.viewport_start = Some(
                if start >= count {
                    start - count
                } else {
                    0
                },
            );
        }
        self.clamp_selection();
    }

    /// Trims the received history as the service trims its own: by count,
    /// then by age relative to the newest sample.
    pub fn trim_history(&mut self)
        ensures
            (final(self).history(), final(self).hovered_index, final(self).selected_application)
                == trimmed(
                old(self).history(),
                old(self).hovered_index,
                old(self).selected_application,
                old(self).latest_snapshot(),
                old(self).config.sampling.maximum_samples,
                old(self).config.sampling.retention,
            ),
            final(self).viewport_start == shifted(
                old(self).viewport_start,
                trim_count(
                    old(self).history(),
                    old(self).config.sampling.maximum_samples,
                    old(self).config.sampling.retention,
                ),
            ),
            final(self).latest == old(self).latest,
            final(self).metric == old(self).metric,
            final(self).direction == old(self).direction,
            final(self).config == old(self).config,
            final(self).chart_area == old(self).chart_area,
            final(self).applications_area == old(self).applications_area,
            final(self).connected == old(self).connected,
            final(self).error == old(self).error,
    {
        let maximum = if self.config.sampling.maximum_samples < 2 {
            2
        } else {
            self.config.sampling.maximum_samples
        };
        let ghost v0 = self.viewport_start;
        let ghost h0 = self.history();
        let len = self.snapshots.len();
        let ghost first: nat = if len > maximum {
            (len - maximum) as nat
        } else {
            0
        };
        if len > maximum {
            self.drain_oldest(len - maximum);
        }
        proof {
            lemma_shifted_zero(v0);
            assert(self.viewport_start == shifted(v0, first));
            assert(self.history() =~= h0.skip(first as int));
        }
        let n = self.snapshots.len();
        if n == 0 {
            return;
        }
        let ghost h = self.history();
        let newest = self.snapshots[n - 1].timestamp_unix_ms;
        assert(h.last().timestamp_unix_ms == newest);
        let retention_ms = self.config.sampling.retention.millis_i64();
        let cutoff: i64 = if newest < i64::MIN + retention_ms {
            i64::MIN
        } else {
            newest - retention_ms
        };
        let mut keep_from: usize = 0;
        while keep_from < n && self.snapshots[keep_from].timestamp_unix_ms < cutoff
            invariant
                n == self.snapshots@.len(),
                h == self.history(),
                keep_from <= n,
                forall|k: int| 0 <= k < keep_from ==> #[trigger] h[k].timestamp_unix_ms < cutoff,
            decreases n - keep_from,
        {
            keep_from = keep_from + 1;
        }
        proof {
            lemma_leading_older(h, cutoff as int, keep_from as int);
            lemma_shifted_twice(v0, first, keep_from as nat);
            lemma_shifted_zero(shifted(v0, first));
        }
        if keep_from > 0 {
            self.drain_oldest(keep_from);
        }
    }

    /// Takes in a message from the service: a whole state replaces the
    /// history; a snapshot becomes the latest and its compacted form joins
    /// the history, which is then trimmed; a pong marks the connection; an
    /// error is kept for display.
    pub fn apply(&mut self, message: ServerMessage)
        ensures
            final(self).metric == old(self).metric,
            final(self).direction == old(self).direction,
            final(self).config == old(self).config,
            final(self).chart_area == old(self).chart_area,
            final(self).applications_area == old(self).applications_area,
            match message {
                ServerMessage::State { history, latest } => {
                    &&& final(self).snapshots == history
                    &&& final(self).latest == latest
                    &&& final(self).hovered_index == old(self).hovered_index
                    &&& final(self).viewport_start == old(self).viewport_start
                    &&& final(self).selected_application == clamped(
                        old(self).selected_application,
                        snapshot_views(history@),
                        old(self).hovered_index,
                        optional_view(latest),
                    )
                    &&& final(self).connected
                    &&& final(self).error == old(self).error
                },
                ServerMessage::Snapshot { snapshot } => {
                    &&& final(self).latest == Some(snapshot)
                    &&& (final(self).history(), final(self).hovered_index, final(self).selected_application) == trimmed(
                        old(self).history().push(compacted(snapshot@)),
                        old(self).hovered_index,
                        old(self).selected_application,
                        Some(snapshot@),
                        old(self).config.sampling.maximum_samples,
                        old(self).config.sampling.retention,
                    )
                    &&& final(self).viewport_start == shifted(
                        old(self).viewport_start,
                        trim_count(
                            old(self).history().push(compacted(snapshot@)),
                            old(self).config.sampling.maximum_samples,
                            old(self).config.sampling.retention,
                        ),
                    )
                    &&& final(self).connected
                    &&& final(self).error == old(self).error
                },
                ServerMessage::Pong => {
                    &&& final(self).snapshots == old(self).snapshots
                    &&& final(self).latest == old(self).latest
                    &&& final(self).hovered_index == old(self).hovered_index
                    &&& final(self).viewport_start == old(self).viewport_start
                    &&& final(self).selected_application == old(self).selected_application
                    &&& final(self).connected
                    &&& final(self).error == old(self).error
                },
                ServerMessage::Error { message } => {
                    &&& final(self).snapshots == old(self).snapshots
                    &&& final(self).latest == old(self).latest
                    &&& final(self).hovered_index == old(self).hovered_index
                    &&& final(self).viewport_start == old(self).viewport_start
                    &&& final(self).selected_application == old(self).selected_application
                    &&& final(self).connected == old(self).connected
                    &&& final(self).error == Some(message)
                },
            },
    {
        match message {
            ServerMessage::State { history, latest } => {
                self.snapshots = history;
                self.latest = latest;
                self.clamp_selection();
                self.connected = true;
            },
            ServerMessage::Snapshot { snapshot } => {
                let mut compact_form = snapshot.duplicate();
                compact(&mut compact_form);
                let ghost before = self.snapshots@;
                self.snapshots.push(compact_form);
                assert(self.history() =~= snapshot_views(before).push(compacted(snapshot@)));
                self.latest = Some(snapshot);
                self.trim_history();
                self.connected = true;
            },
            ServerMessage::Pong => {
                self.connected = true;
            },
            ServerMessage::Error { message } => {
                self.error = Some(message);
            },
        }
    }

    /// Moves the hovered sample by `delta` (from the last when none is
    /// hovered), within the history.
    pub fn move_hover(&mut self, delta: isize)
        ensures
            (final(self).hovered_index, final(self).selected_application) == moved(*old(self), delta as int),
            final(self).viewport_start == selected_viewport(*old(self), hover_target(*old(self), delta as int)),
            final(self).metric == old(self).metric,
            final(self).direction == old(self).direction,
            same_except_selection(*final(self), *old(self)),
    {
        let n = self.snapshots.len();
        if n == 0 {
            return;
        }
        let current = match self.hovered_index {
            Some(h) => h,
            None => n - 1,
        };
        let target: usize = if delta >= 0 {
            let d = delta as usize;
            if current > usize::MAX - d {
                usize::MAX
            } else {
                current + d
            }
        } else {
            let d = (0 - (delta as i128)) as usize;
            if current >= d {
                current - d
            } else {
                0
            }
        };
        let target = if target < n - 1 {
            target
        } else {
            n - 1
        };
        self.select_snapshot(target);
    }

    /// Reacts to one terminal event; true when the client should quit.
    pub fn handle_event(&mut self, event: InputEvent) -> (out: bool)
        requires
            old(self).selected_application < usize::MAX,
        ensures
            (final(self).metric, final(self).direction, final(self).hovered_index, final(self).selected_application, out) == handled(*old(self), event),
            final(self).viewport_start == handled_viewport(*old(self), event),
            same_except_selection(*final(self), *old(self)),
    {
        match event {
            InputEvent::Key { code, press } => {
                if !press {
                    return false;
                }
                match code {
                    KeyInput::Char('q') | KeyInput::Esc => {
                        return true;
                    },
                    KeyInput::Tab => {
                        self.metric = self.metric.next();
                        self.selected_application = 0;
                    },
                    KeyInput::Char('d') => {
                        if self.metric == MetricCategory::Disk || self.metric == MetricCategory::Network {
                            self.direction = match self.direction {
                                TransferDirection::Incoming => TransferDirection::Outgoing,
                                TransferDirection::Outgoing => TransferDirection::Incoming,
                            };
                        }
                    },
                    KeyInput::Left => self.move_hover(-1),
                    KeyInput::Right => self.move_hover(1),
                    KeyInput::Up => {
                        if self.selected_application > 0 {
                            self.selected_application = self.selected_application - 1;
                        }
                    },
                    KeyInput::Down => {
                        self.select_next_application();
                    },
                    _ => {},
                }
            },
            InputEvent::Mouse { kind, column, row } => {
                match kind {
                    MouseKind::Moved | MouseKind::Down | MouseKind::Drag => {
                        if self.chart_area.contains(column, row) {
                            let relative: usize = if column >= self.chart_area.x {
                                (column - self.chart_area.x) as usize
                            } else {
                                0
                            };
                            if self.snapshots.len() > 0 {
                                let start = self.window_start();
                                let target = if start > usize::MAX - relative {
                                    usize::MAX
                                } else {
                                    start + relative
                                };
                                self.select_snapshot(target);
                            }
                        } else if self.applications_area.contains(column, row) && kind
                            == MouseKind::Down {
                            let top: u16 = if self.applications_area.y < u16::MAX {
                                self.applications_area.y + 1
                            } else {
                                u16::MAX
                            };
                            let offset: u16 = if row >= top {
                                row - top
                            } else {
                                0
                            };
                            self.selected_application = offset as usize;
                        }
                    },
                    MouseKind::ScrollUp => {
                        if self.selected_application > 0 {
                            self.selected_application = self.selected_application - 1;
                        }
                    },
                    MouseKind::ScrollDown => {
                        self.select_next_application();
                    },
                    _ => {},
                }
            },
            InputEvent::Other => {},
        }
        false
    }

    /// Selects the next application, staying on the last.
    fn select_next_application(&mut self)
        requires
            old(self).selected_application < usize::MAX,
        ensures
            final(self).selected_application == next_application(*old(self)),
            final(self).hovered_index == old(self).hovered_index,
            final(self).viewport_start == old(self).viewport_start,
            final(self).metric == old(self).metric,
            final(self).direction == old(self).direction,
            same_except_selection(*final(self), *old(self)),
    {
        let n = self.application_count();
        let maximum = if n > 0 {
            n - 1
        } else {
            0
        };
        let next = self.selected_application + 1;
        self.selected_application = if next < maximum {
            next
        } else {
            maximum
        };
    }
}

/// The fields that selection and navigation leave alone are unchanged.
pub open spec fn same_except_selection(a: App, b: App) -> bool {
    &&& a.config == b.config
    &&& a.snapshots == b.snapshots
    &&& a.latest == b.latest
    &&& a.chart_area == b.chart_area
    &&& a.applications_area == b.applications_area
    &&& a.connected == b.connected
    &&& a.error == b.error
}

/// The hovered index and application selection after selecting sample
/// `index` (at most the last): the newest sample is selected by hovering
/// none.
pub open spec fn selected_at(app: App, index: int) -> (Option<usize>, usize) {
    let n = app.snapshots@.len();
    if n == 0 {
        (app.hovered_index, app.selected_application)
    } else {
        let t = if index < n - 1 {
            index
        } else {
            n - 1
        };
        let hov = if t < n - 1 {
            Some(t as usize)
        } else {
            None
        };
        (hov, clamped(app.selected_application, app.history(), hov, app.latest_snapshot()))
    }
}

/// The chart's frozen start after selecting sample `index` (at most the
/// last): the newest sample lets the chart follow the newest samples again;
/// an older one freezes it where it is, panned just far enough to show the
/// sample.
pub open spec fn selected_viewport(app: App, index: int) -> Option<usize> {
    let n = app.snapshots@.len();
    if n == 0 {
        app.viewport_start
    } else {
        let t = if index < n - 1 {
            index
        } else {
            n - 1
        };
        if t >= n - 1 {
            None
        } else {
            let s = app.shown_from();
            let w = app.chart_area.width as int;
            Some(
                (if t < s || w == 0 {
                    t
                } else if t >= s + w {
                    t - w + 1
                } else {
                    s
                }) as usize,
            )
        }
    }
}

/// The sample the hovered one moves to by `delta` (from the last when none
/// is hovered), saturating at 0 and `usize::MAX`, then within the history.
pub open spec fn hover_target(app: App, delta: int) -> int {
    let n = app.snapshots@.len();
    let current: int = match app.hovered_index {
        Some(h) => h as int,
        None => n - 1,
    };
    let t = current + delta;
    let t = if t < 0 {
        0
    } else if t > usize::MAX {
        usize::MAX as int
    } else {
        t
    };
    if t < n - 1 {
        t
    } else {
        n - 1
    }
}

/// The hovered index and application selection after moving the hovered
/// sample by `delta`.
pub open spec fn moved(app: App, delta: int) -> (Option<usize>, usize) {
    selected_at(app, hover_target(app, delta))
}

/// The next application, staying on the last.
pub open spec fn next_application(app: App) -> usize {
    let m = last_application(app.history(), app.hovered_index, app.latest_snapshot());
    if app.selected_application + 1 < m {
        (app.selected_application + 1) as usize
    } else {
        m as usize
    }
}

/// The previous application, staying on the first.
pub open spec fn previous_application(app: App) -> usize {
    if app.selected_application > 0 {
        (app.selected_application - 1) as usize
    } else {
        0
    }
}

/// The sample under chart column `column`: the chart shows one sample per
/// column from its first one (saturating at `usize::MAX`).
pub open spec fn sample_at_column(app: App, column: u16) -> int {
    let relative: int = if column >= app.chart_area.x {
        column - app.chart_area.x
    } else {
        0
    };
    let t = app.shown_from() + relative;
    if t > usize::MAX {
        usize::MAX as int
    } else {
        t
    }
}

/// The chart's frozen start after an event: the arrows and the mouse over
/// the chart select a sample (see `selected_viewport`); everything else
/// leaves it.
pub open spec fn handled_viewport(app: App, event: InputEvent) -> Option<usize> {
    match event {
        InputEvent::Key { code, press } => if !press {
            app.viewport_start
        } else {
            match code {
                KeyInput::Left => selected_viewport(app, hover_target(app, -1)),
                KeyInput::Right => selected_viewport(app, hover_target(app, 1)),
                _ => app.viewport_start,
            }
        },
        InputEvent::Mouse { kind, column, row } => match kind {
            MouseKind::Moved | MouseKind::Down | MouseKind::Drag => if area_contains(
                app.chart_area,
                column,
                row,
            ) && app.snapshots@.len() > 0 {
                selected_viewport(app, sample_at_column(app, column))
            } else {
                app.viewport_start
            },
            _ => app.viewport_start,
        },
        InputEvent::Other => app.viewport_start,
    }
}

/// The metric, direction, hovered sample, selected application and whether
/// to quit after an event: `q` or Esc quits; Tab shows the next metric from
/// its first application; `d` flips the direction of disk and network;
/// the arrows move through samples and applications; the mouse over the
/// chart selects the sample under it, a click in the list selects the row
/// under it, and the wheel moves through applications. Released keys and
/// other events change nothing.
pub open spec fn handled(app: App, event: InputEvent) -> (
    MetricCategory,
    TransferDirection,
    Option<usize>,
    usize,
    bool,
) {
    let unchanged = (app.metric, app.direction, app.hovered_index, app.selected_application, false);
    match event {
        InputEvent::Key { code, press } => if !press {
            unchanged
        } else {
            match code {
                KeyInput::Char(c) => if c == 'q' {
                    (app.metric, app.direction, app.hovered_index, app.selected_application, true)
                } else if c == 'd' {
                    if app.metric == MetricCategory::Disk || app.metric == MetricCategory::Network {
                        (
                            app.metric,
                            other_direction(app.direction),
                            app.hovered_index,
                            app.selected_application,
                            false,
                        )
                    } else {
                        unchanged
                    }
                } else {
                    unchanged
                },
                KeyInput::Esc => (
                    app.metric,
                    app.direction,
                    app.hovered_index,
                    app.selected_application,
                    true,
                ),
                KeyInput::Tab => (next_metric(app.metric), app.direction, app.hovered_index, 0, false),
                KeyInput::Left => {
                    let m = moved(app, -1);
                    (app.metric, app.direction, m.0, m.1, false)
                },
                KeyInput::Right => {
                    let m = moved(app, 1);
                    (app.metric, app.direction, m.0, m.1, false)
                },
                KeyInput::Up => (
                    app.metric,
                    app.direction,
                    app.hovered_index,
                    previous_application(app),
                    false,
                ),
                KeyInput::Down => (
                    app.metric,
                    app.direction,
                    app.hovered_index,
                    next_application(app),
                    false,
                ),
                KeyInput::Other => unchanged,
            }
        },
        InputEvent::Mouse { kind, column, row } => match kind {
            MouseKind::Moved | MouseKind::Down | MouseKind::Drag => if area_contains(
                app.chart_area,
                column,
                row,
            ) {
                if app.snapshots@.len() > 0 {
                    let s = selected_at(app, sample_at_column(app, column));
                    (app.metric, app.direction, s.0, s.1, false)
                } else {
                    unchanged
                }
            } else if area_contains(app.applications_area, column, row) && kind == MouseKind::Down {
                let top = saturating_add_u16(app.applications_area.y, 1);
                (
                    app.metric,
                    app.direction,
                    app.hovered_index,
                    saturating_sub_u16(row, top) as usize,
                    false,
                )
            } else {
                unchanged
            },
            MouseKind::ScrollUp => (
                app.metric,
                app.direction,
                app.hovered_index,
                previous_application(app),
                false,
            ),
            MouseKind::ScrollDown => (
                app.metric,
                app.direction,
                app.hovered_index,
                next_application(app),
                false,
            ),
            MouseKind::Other => unchanged,
        },
        InputEvent::Other => unchanged,
    }
}

proof fn lemma_leading_older(h: Seq<SnapshotView>, cutoff: int, k: int)
    requires
        0 <= k <= h.len(),
        forall|j: int| 0 <= j < k ==> #[trigger] h[j].timestamp_unix_ms < cutoff,
        k == h.len() || h[k].timestamp_unix_ms >= cutoff,
    ensures
        leading_older(h, cutoff) == k,
    decreases k,
{
    if k > 0 {
        assert(h[0].timestamp_unix_ms < cutoff);
        lemma_leading_older(h.drop_first(), cutoff, k - 1);
    }
}

} // verus!

verus! {

/// Four presses of Tab come back to the same metric.
pub proof fn lemma_metric_cycle(m: MetricCategory)
    ensures
        next_metric(next_metric(next_metric(next_metric(m)))) == m,
        next_metric(m) != m,
{
}

/// Flipping the direction twice restores it.
pub proof fn lemma_direction_flip(d: TransferDirection)
    ensures
        other_direction(other_direction(d)) == d,
        other_direction(d) != d,
{
}

/// A selected sample's column lies in the chart: the first sample is at the
/// left edge, and the newest is at the right edge when there are enough
/// samples to fill the chart.
pub proof fn lemma_column_within_chart(index: int, count: int, width: int)
    requires
        count > 0,
        width > 0,
        index >= 0,
    ensures
        0 <= column_of(index, count, width) < width,
        column_of(0, count, width) == 0,
        count >= width ==> column_of(count - 1, count, width) == width - 1,
{
}

/// The chart shows a sample selected by the arrows or the mouse: after
/// selecting an older sample, it lies within the frozen chart, which starts
/// no later than the live chart.
pub proof fn lemma_selected_sample_is_shown(app: App, index: int)
    requires
        0 < app.snapshots@.len() <= usize::MAX,
        app.chart_area.width > 0,
        index >= 0,
    ensures
        match selected_viewport(app, index) {
            Some(s) => {
                let t = if index < app.snapshots@.len() - 1 {
                    index
                } else {
                    app.snapshots@.len() - 1
                };
                let w = app.chart_area.width as int;
                let start = window_start(app.snapshots@.len() as int, w, Some(s));
                &&& selected_at(app, index).0 == Some(t as usize)
                &&& start <= t < start + w
            },
            None => selected_at(app, index).0 is None,
        },
{
}

/// After `event`, application row `target` is selected, and the metric,
/// direction, hovered sample and chart are as they were; the client goes on.
pub open spec fn selects_row(app: App, event: InputEvent, target: int) -> bool {
    let h = handled(app, event);
    &&& h.3 == target
    &&& h.0 == app.metric
    &&& h.1 == app.direction
    &&& h.2 == app.hovered_index
    &&& !h.4
    &&& handled_viewport(app, event) == app.viewport_start
}

/// The arrows and the wheel move the application selection by one row: Up
/// and the wheel up go to the row above (staying on the first); Down and
/// the wheel down go to the row below, staying on the last listed
/// application (or the first when none is listed).
pub proof fn lemma_application_keys_move_one_row(app: App, column: u16, row: u16)
    requires
        application_count_of(app.history(), app.hovered_index, app.latest_snapshot())
            <= usize::MAX,
    ensures
        ({
            let k = app.selected_application as int;
            let n = application_count_of(app.history(), app.hovered_index, app.latest_snapshot());
            let last: int = if n > 0 {
                n - 1
            } else {
                0
            };
            let up: int = if k > 0 {
                k - 1
            } else {
                0
            };
            let down: int = if k + 1 <= last {
                k + 1
            } else {
                last
            };
            &&& selects_row(app, InputEvent::Key { code: KeyInput::Up, press: true }, up)
            &&& selects_row(app, InputEvent::Mouse { kind: MouseKind::ScrollUp, column, row }, up)
            &&& selects_row(app, InputEvent::Key { code: KeyInput::Down, press: true }, down)
            &&& selects_row(
                app,
                InputEvent::Mouse { kind: MouseKind::ScrollDown, column, row },
                down,
            )
        }),
{
}

/// A click in the application list, outside the chart, selects the row
/// under it: the rows start one line below the list's top edge, and a click
/// on that edge selects the first row.
pub proof fn lemma_click_selects_row_under_it(app: App, column: u16, row: u16)
    requires
        area_contains(app.applications_area, column, row),
        !area_contains(app.chart_area, column, row),
    ensures
        selects_row(
            app,
            InputEvent::Mouse { kind: MouseKind::Down, column, row },
            if row > app.applications_area.y {
                row - app.applications_area.y - 1
            } else {
                0
            },
        ),
{
}

/// The selected sample, when there is one, is in the history.
pub proof fn lemma_selection_in_history(len: nat, hovered: Option<usize>)
    ensures
        match selection_index(len, hovered) {
            Some(i) => 0 <= i < len,
            None => len == 0,
        },
{
}

/// After clamping, the selected application is in the listed applications
/// (or 0 when there are none).
pub proof fn lemma_clamped_within_list(
    selected: usize,
    history: Seq<SnapshotView>,
    hovered: Option<usize>,
    latest: Option<SnapshotView>,
)
    ensures
        clamped(selected, history, hovered, latest) <= selected,
        application_count_of(history, hovered, latest) == 0 ==> clamped(
            selected,
            history,
            hovered,
            latest,
        ) == 0,
        application_count_of(history, hovered, latest) > 0 ==> clamped(
            selected,
            history,
            hovered,
            latest,
        ) < application_count_of(history, hovered, latest),
{
}

/// A shortened name fits: never more than `maximum` characters, and
/// unchanged when it already fits.
pub proof fn lemma_truncated_fits(value: Seq<char>, maximum: nat)
    ensures
        truncated(value, maximum).len() <= maximum,
        value.len() <= maximum ==> truncated(value, maximum) == value,
{
}

/// The trimmed history holds at most `maximum` (and never below 2) samples,
/// and a non-empty history keeps its newest sample.
pub proof fn lemma_trimmed_bounds(
    history: Seq<SnapshotView>,
    hovered: Option<usize>,
    selected: usize,
    latest: Option<SnapshotView>,
    maximum: usize,
    retention: TimeSpan,
)
    ensures
        ({
            let t = trimmed(history, hovered, selected, latest, maximum, retention);
            let m = if maximum < 2 {
                2
            } else {
                maximum as nat
            };
            &&& t.0.len() <= m
            &&& t.0.len() <= history.len()
            &&& history.len() > 0 ==> t.0.len() > 0 && t.0.last() == history.last()
        }),
{
    let m = if maximum < 2 {
        2
    } else {
        maximum as nat
    };
    let step1 = if history.len() > m {
        drained(history, hovered, selected, latest, (history.len() - m) as nat)
    } else {
        (history, hovered, selected)
    };
    if history.len() > m {
        assert(step1.0.last() == history.last());
    }
    if step1.0.len() > 0 {
        let cutoff = retention_cutoff(step1.0.last().timestamp_unix_ms, retention);
        lemma_leading_older_bound(step1.0, cutoff);
        let k = leading_older(step1.0, cutoff);
        if k > 0 {
            assert(step1.0.skip(k as int).last() == step1.0.last());
        }
    }
}

/// For a history in time order, trimming keeps the longest run of samples
/// that ends with the newest, has at most `maximum` (never below 2) samples
/// and is no older than the retention before the newest: the next older
/// sample, if any, is excluded by the count or by its age.
pub proof fn lemma_trimmed_is_longest_recent_suffix(
    history: Seq<SnapshotView>,
    hovered: Option<usize>,
    selected: usize,
    latest: Option<SnapshotView>,
    maximum: usize,
    retention: TimeSpan,
)
    requires
        history.len() > 0,
        in_time_order(history),
    ensures
        ({
            let t = trimmed(history, hovered, selected, latest, maximum, retention).0;
            let m = if maximum < 2 {
                2
            } else {
                maximum as nat
            };
            let cutoff = retention_cutoff(history.last().timestamp_unix_ms, retention);
            &&& 1 <= t.len() <= m
            &&& t.len() <= history.len()
            &&& t == history.skip(history.len() - t.len())
            &&& forall|i: int| 0 <= i < t.len() ==> #[trigger] t[i].timestamp_unix_ms >= cutoff
            &&& t.len() < history.len() ==> (t.len() == m || history[history.len() - t.len()
                - 1].timestamp_unix_ms < cutoff)
        }),
{
    let m = if maximum < 2 {
        2
    } else {
        maximum as nat
    };
    let step1 = if history.len() > m {
        drained(history, hovered, selected, latest, (history.len() - m) as nat)
    } else {
        (history, hovered, selected)
    };
    let first: int = if history.len() > m {
        history.len() - m
    } else {
        0
    };
    assert(step1.0 =~= history.skip(first));
    assert(step1.0.last() == history.last());
    let cutoff = retention_cutoff(history.last().timestamp_unix_ms, retention);
    lemma_leading_older_bound(step1.0, cutoff);
    lemma_leading_older_facts(step1.0, cutoff);
    let k = leading_older(step1.0, cutoff);
    let t = trimmed(history, hovered, selected, latest, maximum, retention).0;
    assert(t =~= history.skip(first + k));
    assert forall|i: int| 0 <= i < t.len() implies #[trigger] t[i].timestamp_unix_ms >= cutoff by {
        assert(t[i] == history[first + k + i]);
        assert(t[0] == history[first + k]);
        assert(step1.0[k as int] == history[first + k]);
        assert(history[first + k].timestamp_unix_ms <= history[first + k + i].timestamp_unix_ms);
    }
    if t.len() < history.len() {
        if k > 0 {
            assert(step1.0[k - 1] == history[first + k - 1]);
        }
    }
}

proof fn lemma_leading_older_facts(h: Seq<SnapshotView>, cutoff: int)
    ensures
        leading_older(h, cutoff) <= h.len(),
        forall|j: int| 0 <= j < leading_older(h, cutoff) ==> #[trigger] h[j].timestamp_unix_ms < cutoff,
        leading_older(h, cutoff) < h.len() ==> h[leading_older(h, cutoff) as int].timestamp_unix_ms
            >= cutoff,
    decreases h.len(),
{
    if h.len() > 0 && h[0].timestamp_unix_ms < cutoff {
        lemma_leading_older_facts(h.drop_first(), cutoff);
        assert forall|j: int| 0 <= j < leading_older(h, cutoff) implies #[trigger] h[j].timestamp_unix_ms
            < cutoff by {
            if j > 0 {
                assert(h[j] == h.drop_first()[j - 1]);
            }
        }
    }
}

proof fn lemma_leading_older_bound(h: Seq<SnapshotView>, cutoff: int)
    requires
        h.len() > 0,
        h.last().timestamp_unix_ms >= cutoff,
    ensures
        leading_older(h, cutoff) < h.len(),
    decreases h.len(),
{
    if h[0].timestamp_unix_ms < cutoff {
        assert(h.drop_first().last() == h.last());
        lemma_leading_older_bound(h.drop_first(), cutoff);
    }
}

} // verus!
