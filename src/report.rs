//! What one reporting tick shows: the progress header and the summary
//! tables' values. Laying the values out as tables or JSON is left to the
//! caller.
use vstd::prelude::*;
use vstd::string::StringExecFns;
use crate::format::{
    duration_text, fixed, format_duration, format_si, push_fixed, si_text, div_round_even,
};
use crate::metrics::{
    error_lines, ErrorMetrics, RequestDurationSecondsMetrics, ResponseSizeBytesMetrics,
    StartTimeMetrics, StatusClass,
};

verus! {

/// How a run stops: after a number of requests, or after a number of seconds.
#[derive(Debug, Clone, Copy, PartialEq, Eq, Structural)]
pub enum ExecMode {
    ByCount(u64),
    ByDuration(u64),
}

/// Output of the periodic report.
#[derive(Debug, Clone, Copy, PartialEq, Eq, Structural)]
pub enum OutputFormat {
    Text,
    Json,
}

/// The progress of a run: current and target value, each with its display
/// text. Seconds are capped at the target.
pub open spec fn progress_of(mode: ExecMode, elapsed: u64, count: u64) -> (u64, Seq<char>, u64, Seq<char>) {
    match mode {
        ExecMode::ByCount(goal) => (count, si_text(count as nat), goal, si_text(goal as nat)),
        ExecMode::ByDuration(goal) => {
            let e = if elapsed < goal {
                elapsed
            } else {
                goal
            };
            (e, duration_text(e as nat), goal, duration_text(goal as nat))
        },
    }
}

impl ExecMode {
    /// Current value, its text, target and its text, for `elapsed` seconds
    /// and `count` requests so far.
    pub fn state_progress(&self, elapsed: u64, count: u64) -> (r: (u64, String, u64, String))
        ensures
            r.0 == progress_of(*self, elapsed, count).0,
            r.1@ == progress_of(*self, elapsed, count).1,
            r.2 == progress_of(*self, elapsed, count).2,
            r.3@ == progress_of(*self, elapsed, count).3,
    {
        match self {
            ExecMode::ByCount(goal) => (count, format_si(&count), *goal, format_si(goal)),
            ExecMode::ByDuration(goal) => {
                let e = if elapsed < *goal {
                    elapsed
                } else {
                    *goal
                };
                (e, format_duration(&e), *goal, format_duration(goal))
            },
        }
    }
}

/// `n` copies of `c`.
pub open spec fn repeat_char(c: char, n: nat) -> Seq<char> {
    Seq::new(n, |i: int| c)
}

/// `s` right-aligned in `width` characters.
pub open spec fn pad_left(s: Seq<char>, width: nat) -> Seq<char> {
    if s.len() < width {
        repeat_char(' ', (width - s.len()) as nat) + s
    } else {
        s
    }
}

/// `s` left-aligned in `width` characters.
pub open spec fn pad_right(s: Seq<char>, width: nat) -> Seq<char> {
    if s.len() < width {
        s + repeat_char(' ', (width - s.len()) as nat)
    } else {
        s
    }
}

/// Width of the progress bar, in characters.
pub const BAR_CHAR_COUNT: u64 = 50;

/// Filled cells of the bar: `50 * current / target` rounded half up, with
/// the current value capped at the target; none for a zero target.
pub open spec fn filled_cells(current: nat, target: nat) -> nat {
    let c = if current < target {
        current
    } else {
        target
    };
    if target == 0 {
        0
    } else {
        (100 * c + target) / (2 * target)
    }
}

/// Tenths of a percent done, rounded to nearest with ties to even.
pub open spec fn done_tenths(current: nat, target: nat) -> nat {
    let c = if current < target {
        current
    } else {
        target
    };
    if target == 0 {
        0
    } else {
        div_round_even(1000 * c, target)
    }
}

/// The progress line: `  <current>/<target> [===>   ] <p>%`.
pub open spec fn bar_text(current: nat, current_display: Seq<char>, target: nat, target_display: Seq<char>) -> Seq<char> {
    let f = filled_cells(current, target);
    seq![' ', ' '] + pad_left(current_display, 5) + seq!['/'] + pad_right(target_display, 5)
        + seq![' ', '['] + repeat_char('=', f) + seq!['>'] + repeat_char(' ', (50 - f) as nat)
        + seq![']', ' '] + fixed(done_tenths(current, target), 1) + seq!['%', '\n']
}

fn push_repeat(s: &mut String, unit: &str, n: u64)
    requires
        unit@.len() == 1,
    ensures
        final(s)@ == old(s)@ + repeat_char(unit@[0], n as nat),
{
    let mut i: u64 = 0;
    while i < n
        invariant
            i <= n,
            unit@.len() == 1,
            s@ == old(s)@ + repeat_char(unit@[0], i as nat),
        decreases n - i,
    {
        s.append(unit);
        i = i + 1;
        proof {
            assert(s@ =~= old(s)@ + repeat_char(unit@[0], i as nat));
        }
    }
}

fn push_padded_left(s: &mut String, text: &String, width: u64)
    ensures
        final(s)@ == old(s)@ + pad_left(text@, width as nat),
{
    let len = text.as_str().unicode_len();
    proof {
        reveal_strlit(" ");
    }
    if (len as u64) < width {
        push_repeat(s, " ", width - len as u64);
    }
    s.append(text.as_str());
    proof {
        assert(s@ =~= old(s)@ + pad_left(text@, width as nat));
    }
}

fn push_padded_right(s: &mut String, text: &String, width: u64)
    ensures
        final(s)@ == old(s)@ + pad_right(text@, width as nat),
{
    let len = text.as_str().unicode_len();
    s.append(text.as_str());
    proof {
        reveal_strlit(" ");
    }
    if (len as u64) < width {
        push_repeat(s, " ", width - len as u64);
    }
    proof {
        assert(s@ =~= old(s)@ + pad_right(text@, width as nat));
    }
}

/// The progress indicator of a run.
#[derive(Debug, Clone)]
pub struct ProgressBar {
    pub current: u64,
    pub current_display: String,
    pub target: u64,
    pub target_display: String,
}

impl ProgressBar {
    pub fn new(current: u64, current_display: String, target: u64, target_display: String) -> (r:
        ProgressBar)
        ensures
            r.current == current,
            r.current_display == current_display,
            r.target == target,
            r.target_display == target_display,
    {
        ProgressBar { current, current_display, target, target_display }
    }

    /// The bar for `elapsed` seconds and `count` requests in `kind` mode.
    pub fn from_kinds(elapsed: u64, count: u64, kind: &ExecMode) -> (r: ProgressBar)
        ensures
            r.current == progress_of(*kind, elapsed, count).0,
            r.current_display@ == progress_of(*kind, elapsed, count).1,
            r.target == progress_of(*kind, elapsed, count).2,
            r.target_display@ == progress_of(*kind, elapsed, count).3,
    {
        let (current, current_display, target, target_display) = kind.state_progress(elapsed, count);
        ProgressBar::new(current, current_display, target, target_display)
    }

    /// The rendered progress line.
    pub fn to_string(&self) -> (r: String)
        ensures
            r@ == bar_text(
                self.current as nat,
                self.current_display@,
                self.target as nat,
                self.target_display@,
            ),
    {
        let c: u64 = if self.current < self.target {
            self.current
        } else {
            self.target
        };
        let t = self.target;
        let filled: u64 = if t == 0 {
            0
        } else {
            ((100 * c as u128 + t as u128) / (2 * t as u128)) as u64
        };
        proof {
            if t > 0 {
                assert((100 * c + t) / (2 * t as int) <= 50) by {
                    vstd::arithmetic::div_mod::lemma_div_is_ordered(
                        100 * c + t,
                        100 * t + t,
                        2 * t as int,
                    );
                    assert(100 * t + t < 2 * t * 51) by (nonlinear_arith)
                        requires
                            t > 0,
                    ;
                    vstd::arithmetic::div_mod::lemma_div_by_multiple(51, 2 * t as int);
                    vstd::arithmetic::div_mod::lemma_div_is_ordered(
                        100 * t + t,
                        2 * t * 51,
                        2 * t as int,
                    );
                    assert((2 * t * 51) / (2 * t as int) == 51) by (nonlinear_arith)
                        requires
                            t > 0,
                    {
                        vstd::arithmetic::div_mod::lemma_div_by_multiple(51, 2 * t as int);
                        assert(51 * (2 * t) == 2 * t * 51);
                    }
                    if (100 * c + t) / (2 * t as int) == 51 {
                        vstd::arithmetic::div_mod::lemma_fundamental_div_mod(
                            100 * c + t,
                            2 * t as int,
                        );
                        assert(false) by (nonlinear_arith)
                            requires
                                100 * c + t == 2 * t * ((100 * c + t) / (2 * t as int)) + (100 * c
                                    + t) % (2 * t as int),
                                (100 * c + t) / (2 * t as int) == 51,
                                (100 * c + t) % (2 * t as int) >= 0,
                                c <= t,
                                t > 0,
                        ;
                    }
                }
            }
        }
        let tenths: u64 = if t == 0 {
            0
        } else {
            let v = crate::format::round_div_even(1000 * c as u128, t as u128);
            proof {
                vstd::arithmetic::div_mod::lemma_div_is_ordered(
                    1000 * c as int,
                    1000 * t as int,
                    t as int,
                );
                vstd::arithmetic::div_mod::lemma_div_by_multiple(1000, t as int);
                assert(1000 * t == 1000 * (t as int));
            }
            v as u64
        };
        let mut s = String::from_str("  ");
        push_padded_left(&mut s, &self.current_display, 5);
        s.append("/");
        push_padded_right(&mut s, &self.target_display, 5);
        s.append(" [");
        proof {
            reveal_strlit("  ");
            reveal_strlit("/");
            reveal_strlit(" [");
            reveal_strlit("=");
            reveal_strlit(">");
            reveal_strlit(" ");
            reveal_strlit("] ");
            reveal_strlit("%\n");
        }
        push_repeat(&mut s, "=", filled);
        s.append(">");
        push_repeat(&mut s, " ", 50 - filled);
        s.append("] ");
        push_fixed(&mut s, tenths, 1);
        s.append("%\n");
        proof {
            assert(filled == filled_cells(self.current as nat, self.target as nat));
            assert(tenths == done_tenths(self.current as nat, self.target as nat));
            assert(s@ =~= bar_text(
                self.current as nat,
                self.current_display@,
                self.target as nat,
                self.target_display@,
            ));
        }
        s
    }
}

/// `n` copies of `s`, one after another.
pub open spec fn repeat_seq(s: Seq<char>, n: nat) -> Seq<char>
    decreases n,
{
    if n == 0 {
        seq![]
    } else {
        repeat_seq(s, (n - 1) as nat) + s
    }
}

/// The separator printed before each report when the console is not
/// cleared: a line of `border`, the time, and the line again.
pub open spec fn rule_text(border: Seq<char>, repeat: nat, time: Seq<char>) -> Seq<char> {
    let line = repeat_seq(border, repeat);
    line + seq!['\n', ' ', '\u{276F}', '\u{276F}', ' '] + time + seq!['\n'] + line + seq!['\n']
}

/// A separator line made of a repeated border.
#[derive(Debug, Clone)]
pub struct HorizontalRule {
    pub border: String,
    pub repeat: u8,
}

impl HorizontalRule {
    pub fn new(border: &str, repeat: u8) -> (r: HorizontalRule)
        ensures
            r.border@ == border@,
            r.repeat == repeat,
    {
        HorizontalRule { border: border.to_owned(), repeat }
    }

    /// The separator stamped with `time`.
    pub fn render_at(&self, time: &str) -> (r: String)
        ensures
            r@ == rule_text(self.border@, self.repeat as nat, time@),
    {
        let mut line = String::new();
        let mut i: u8 = 0;
        while i < self.repeat
            invariant
                i <= self.repeat,
                line@ == repeat_seq(self.border@, i as nat),
            decreases self.repeat - i,
        {
            line.append(self.border.as_str());
            i = i + 1;
        }
        let mut s = line.clone();
        s.append("\n \u{276F}\u{276F} ");
        s.append(time);
        s.append("\n");
        s.append(line.as_str());
        s.append("\n");
        proof {
            reveal_strlit("\n \u{276F}\u{276F} ");
            reveal_strlit("\n");
            assert(s@ =~= rule_text(self.border@, self.repeat as nat, time@));
        }
        s
    }
}

/// Width of the blank title column of every table.
pub const TITLE_PADDING_SPACES: u64 = 13;

/// The blank text of the tables' title column.
pub fn dummy_title() -> (r: String)
    ensures
        r@ == repeat_char(' ', TITLE_PADDING_SPACES as nat),
{
    let mut s = String::new();
    proof {
        reveal_strlit(" ");
    }
    push_repeat(&mut s, " ", TITLE_PADDING_SPACES);
    s
}

/// Success rate (hundredths of a percent) and requests per second.
#[derive(Debug, Clone, Copy, PartialEq, Eq, Structural)]
pub struct SummaryReport {
    pub http_success_rate: u64,
    pub rps: u64,
}

/// Requests per status class, and in total.
#[derive(Debug, Clone, Copy, PartialEq, Eq, Structural)]
pub struct CounterReport {
    pub status_2xx: u64,
    pub status_3xx: u64,
    pub status_4xx: u64,
    pub status_5xx: u64,
    pub total: u64,
}

/// Duration statistics, in nanoseconds.
#[derive(Debug, Clone, Copy, PartialEq, Eq, Structural)]
pub struct DurationReport {
    pub mean: u64,
    pub p50: u64,
    pub p95: u64,
    pub p99: u64,
    pub min: u64,
    pub max: u64,
}

/// Response size statistics, in bytes.
#[derive(Debug, Clone, Copy, PartialEq, Eq, Structural)]
pub struct ResponseSizeReport {
    pub mean: u64,
    pub total: u64,
}

/// One line of the error breakdown.
#[derive(Debug, Clone)]
pub struct ErrorReport {
    pub message: String,
}

/// Everything one tick reports.
#[derive(Debug, Clone)]
pub struct Reporter {
    pub bar: ProgressBar,
    pub summary: SummaryReport,
    pub counter: CounterReport,
    pub duration: DurationReport,
    pub response_size: ResponseSizeReport,
    pub errors: Vec<ErrorReport>,
    pub horizontal_rule: HorizontalRule,
}

impl Reporter {
    /// Builds the report of the tick at `now` (nanoseconds since the epoch)
    /// from the snapshot's metrics.
    pub fn new(
        duration_meter: &RequestDurationSecondsMetrics,
        start_meter: &StartTimeMetrics,
        resp_size_meter: &ResponseSizeBytesMetrics,
        error_meter: Option<&ErrorMetrics>,
        kind: &ExecMode,
        now: u64,
    ) -> (r: Reporter)
        requires
            duration_meter.wf(),
        ensures
            ({
                let count = duration_meter.spec_count() as u64;
                let elapsed = if now > (if start_meter.spec_points().len() > 0 {
                    start_meter.spec_points()[0]
                } else {
                    0
                }) {
                    ((now - (if start_meter.spec_points().len() > 0 {
                        start_meter.spec_points()[0]
                    } else {
                        0
                    })) + 500_000_000) / 1_000_000_000
                } else {
                    0
                };
                &&& r.bar.current == progress_of(*kind, elapsed as u64, count).0
                &&& r.bar.current_display@ == progress_of(*kind, elapsed as u64, count).1
                &&& r.bar.target == progress_of(*kind, elapsed as u64, count).2
                &&& r.bar.target_display@ == progress_of(*kind, elapsed as u64, count).3
            }),
            r.counter == (CounterReport {
                status_2xx: duration_meter.spec_class_count(StatusClass::S2xx) as u64,
                status_3xx: duration_meter.spec_class_count(StatusClass::S3xx) as u64,
                status_4xx: duration_meter.spec_class_count(StatusClass::S4xx) as u64,
                status_5xx: duration_meter.spec_class_count(StatusClass::S5xx) as u64,
                total: duration_meter.spec_count() as u64,
            }),
            r.summary == (SummaryReport {
                http_success_rate: duration_meter.spec_success_rate() as u64,
                rps: duration_meter.spec_rps(now) as u64,
            }),
            r.duration.mean == duration_meter.spec_mean(),
            r.duration.p50 == duration_meter.spec_percentile(500_000),
            r.duration.p95 == duration_meter.spec_percentile(950_000),
            r.duration.p99 == duration_meter.spec_percentile(990_000),
            r.duration.min == duration_meter.spec_min(),
            r.duration.max == duration_meter.spec_max(),
            r.response_size.total == resp_size_meter.spec_sum(),
            r.response_size.mean == if resp_size_meter.spec_count() > 0 {
                resp_size_meter.spec_sum() / resp_size_meter.spec_count()
            } else {
                0
            },
            error_meter is None ==> r.errors@.len() == 0,
            error_meter matches Some(e) ==> {
                let lines = error_lines(e.spec_points(), e.spec_points().len() as int);
                &&& r.errors@.len() == lines.len()
                &&& forall|i: int| 0 <= i < lines.len() ==> #[trigger] r.errors@[i].message@ == lines[i]
            },
            r.horizontal_rule.border@ == seq!['\u{2500}'],
            r.horizontal_rule.repeat == 80,
    {
        let bar = ProgressBar::from_kinds(
            start_meter.elapsed_time(now),
            duration_meter.count(),
            kind,
        );
        let summary = SummaryReport {
            http_success_rate: duration_meter.http_success_rate(),
            rps: duration_meter.rps(now),
        };
        let counter = CounterReport {
            status_2xx: duration_meter.status_2xx_count(),
            status_3xx: duration_meter.status_3xx_count(),
            status_4xx: duration_meter.status_4xx_count(),
            status_5xx: duration_meter.status_5xx_count(),
            total: duration_meter.count(),
        };
        let duration = DurationReport {
            mean: duration_meter.mean(),
            p50: duration_meter.p50(),
            p95: duration_meter.p95(),
            p99: duration_meter.p99(),
            min: duration_meter.min(),
            max: duration_meter.max(),
        };
        let response_size = ResponseSizeReport {
            mean: resp_size_meter.mean(),
            total: resp_size_meter.sum(),
        };
        let mut errors: Vec<ErrorReport> = Vec::new();
        match error_meter {
            Some(e) => {
                let messages = e.error_messages();
                let mut i: usize = 0;
                while i < messages.len()
                    invariant
                        i <= messages@.len(),
                        errors@.len() == i,
                        forall|k: int| 0 <= k < i ==> #[trigger] errors@[k].message@ == messages@[k]@,
                    decreases messages@.len() - i,
                {
                    errors.push(ErrorReport { message: messages[i].clone() });
                    i = i + 1;
                }
            },
            None => {},
        }
        Reporter {
            bar,
            summary,
            counter,
            duration,
            response_size,
            errors,
            horizontal_rule: {
                proof {
                    reveal_strlit("\u{2500}");
                }
                HorizontalRule::new("\u{2500}", 80)
            },
        }
    }

    /// The rendered progress line.
    pub fn progress_bar(&self) -> (r: String)
        ensures
            r@ == bar_text(
                self.bar.current as nat,
                self.bar.current_display@,
                self.bar.target as nat,
                self.bar.target_display@,
            ),
    {
        self.bar.to_string()
    }

    /// The separator, stamped with `time` (the caller's reading of the local
    /// clock).
    pub fn horizontal_rule(&self, time: &str) -> (r: String)
        ensures
            r@ == rule_text(
                self.horizontal_rule.border@,
                self.horizontal_rule.repeat as nat,
                time@,
            ),
    {
        self.horizontal_rule.render_at(time)
    }

    /// What is printed above the tables: the progress line in interactive
    /// text mode, preceded by a separator stamped with `time` when the console
    /// is not cleared; nothing in JSON or non-interactive mode.
    pub fn header(
        &self,
        format: OutputFormat,
        no_interactive: bool,
        no_clear_console: bool,
        time: &str,
    ) -> (r: Option<String>)
        ensures
            (format == OutputFormat::Json || no_interactive) ==> r is None,
            format == OutputFormat::Text && !no_interactive && !no_clear_console ==> (r matches Some(
                h,
            ) && h@ == bar_text(
                self.bar.current as nat,
                self.bar.current_display@,
                self.bar.target as nat,
                self.bar.target_display@,
            )),
            format == OutputFormat::Text && !no_interactive && no_clear_console ==> (r matches Some(
                h,
            ) && h@ == rule_text(
                self.horizontal_rule.border@,
                self.horizontal_rule.repeat as nat,
                time@,
            ) + seq!['\n'] + bar_text(
                    self.bar.current as nat,
                    self.bar.current_display@,
                    self.bar.target as nat,
                    self.bar.target_display@,
                )),
    {
        match format {
            OutputFormat::Json => None,
            OutputFormat::Text => {
                if no_interactive {
                    None
                } else if no_clear_console {
                    let mut h = self.horizontal_rule(time);
                    h.append("\n");
                    let bar = self.progress_bar();
                    h.append(bar.as_str());
                    proof {
                        reveal_strlit("\n");
                    }
                    Some(h)
                } else {
                    Some(self.progress_bar())
                }
            },
        }
    }
}

} // verus!
