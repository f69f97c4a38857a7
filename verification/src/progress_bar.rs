//! A one-line progress bar, as text. The caller writes each frame to the
//! terminal; a frame starts with a carriage return and so overwrites the
//! frame before it.

use vstd::prelude::*;
use vstd::string::StrSliceExecFns;
use vstd::string::StringExecFns;
use vstd::string::StringSliceAdditionalSpecFns;
use vstd::utf8::{decode_utf8, encode_utf8, is_char_boundary};
use crate::text::{
    decimal, digit_count, lemma_decimal_len, push_char, push_decimal, push_repeated, repeated,
};

verus! {

#[verifier::external_type_specification]
#[verifier::external_body]
pub struct ExInstant(std::time::Instant);

/// The number of columns a frame is laid out for.
pub const WIDTH: usize = 70;

/// The number of columns of the bar between its brackets, the tip aside.
pub const PROGRESS_LENGTH: usize = 20;

/// `Instant::now`: the present moment. Nothing is claimed of it.
#[verifier::external_body]
fn now() -> std::time::Instant {
    std::time::Instant::now()
}

/// `Instant::duration_since`: the time from `earlier` to `later`, zero if
/// `earlier` is the later one. Nothing is claimed of it.
#[verifier::external_body]
fn duration_between(later: &std::time::Instant, earlier: &std::time::Instant) -> std::time::Duration {
    later.duration_since(*earlier)
}

/// `Duration::as_millis`: the whole milliseconds in a duration. Nothing is
/// claimed of it.
#[verifier::external_body]
fn whole_millis(duration: &std::time::Duration) -> u128 {
    duration.as_millis()
}

/// How many decimal digits `value` has; zero has none.
pub fn num_digits(value: usize) -> (result: usize)
    ensures
        result == digit_count(value as nat),
        result <= value,
{
    let mut rest = value;
    let mut result: usize = 0;
    while rest > 0
        invariant
            result + digit_count(rest as nat) == digit_count(value as nat),
            result + rest <= value,
        decreases rest,
    {
        rest = rest / 10;
        result = result + 1;
    }
    result
}

/// The part of `message` that is shown in `room` columns: its first `room`
/// bytes where those end on a character, and all of it otherwise, so also
/// when it is shorter.
pub open spec fn shown_message(message: Seq<char>, room: int) -> Seq<char> {
    let bytes = encode_utf8(message);
    if 0 <= room <= bytes.len() && is_char_boundary(bytes, room) {
        decode_utf8(bytes.subrange(0, room))
    } else {
        message
    }
}

/// `text` with blanks behind it up to `width` characters.
pub open spec fn padded_end(text: Seq<char>, width: int) -> Seq<char> {
    if text.len() < width {
        text + repeated(' ', (width - text.len()) as nat)
    } else {
        text
    }
}

/// `text` with blanks before it up to `width` characters.
pub open spec fn padded_front(text: Seq<char>, width: int) -> Seq<char> {
    if text.len() < width {
        repeated(' ', (width - text.len()) as nat) + text
    } else {
        text
    }
}

/// The minutes that a time left in seconds is shown as, rounded to the
/// nearest.
pub open spec fn eta_minutes(seconds: u64) -> int {
    (seconds + 30) / 60
}

/// How the time left is written at the end of a frame.
pub open spec fn eta_text(eta: Option<u64>) -> Seq<char> {
    match eta {
        None => "   "@,
        Some(seconds) => if eta_minutes(seconds) == 0 {
            " <1m"@
        } else if eta_minutes(seconds) > 999 {
            "!!!m"@
        } else {
            padded_front(decimal(eta_minutes(seconds) as nat), 3) + "m"@
        },
    }
}

/// What one frame of the bar shows.
pub struct ProgressBarDisplay<'a> {
    /// The tasks done.
    pub current: usize,
    /// The tasks in all.
    pub total: usize,
    /// What is being worked on.
    pub message: &'a str,
    /// The time left in whole seconds, where it can be told.
    pub eta: Option<u64>,
    /// The columns to lay the frame out for.
    pub width: usize,
}

/// Whether a frame can be laid out: there is a task, no more are done than
/// there are, and the width leaves room for the counters and the bar.
pub open spec fn frame_fits(current: usize, total: usize, width: usize) -> bool {
    &&& 0 < total
    &&& current <= total
    &&& 2 * digit_count(total as nat) + 32 <= width
}

/// The columns left for the message.
pub open spec fn message_room(total: usize, width: usize) -> int {
    width - (2 * digit_count(total as nat) + 3) - (PROGRESS_LENGTH + 5) - 4
}

/// The columns of the bar that are filled.
pub open spec fn filled_columns(current: usize, total: usize) -> int {
    PROGRESS_LENGTH * current / (total as int)
}

/// A frame: the tasks done, right-aligned to the width of the total, the
/// total, the message cut or padded to its room, the bar, and the time
/// left.
pub open spec fn display_text(
    current: usize,
    total: usize,
    message: Seq<char>,
    eta: Option<u64>,
    width: usize,
) -> Seq<char> {
    padded_front(decimal(current as nat), digit_count(total as nat) as int) + "/"@ + decimal(
        total as nat,
    ) + ": "@ + padded_end(
        shown_message(message, message_room(total, width)),
        message_room(total, width),
    ) + " ["@ + repeated('=', filled_columns(current, total) as nat) + ">"@ + repeated(
        ' ',
        (PROGRESS_LENGTH - filled_columns(current, total)) as nat,
    ) + "] "@ + eta_text(eta)
}

/// Cuts `message` down to what is shown in `room` columns.
pub fn cut_message(message: &str, room: usize) -> (shown: &str)
    ensures
        shown@ == shown_message(message@, room as int),
{
    let length = message.as_bytes().len();
    if room <= length && message.is_char_boundary(room) {
        let cut = message.split_at(room).0;
        proof {
            vstd::utf8::encode_utf8_decode_utf8(cut@);
        }
        cut
    } else {
        message
    }
}

/// Appends `value` in decimal, with blanks before it up to `width`
/// characters.
pub fn push_number(text: &mut String, value: usize, width: usize)
    ensures
        final(text)@ == old(text)@ + padded_front(decimal(value as nat), width as int),
{
    let written = if value == 0 {
        1
    } else {
        num_digits(value)
    };
    proof {
        lemma_decimal_len(value as nat);
    }
    if written < width {
        push_repeated(text, ' ', width - written);
    }
    push_decimal(text, value);
    assert(text@ == old(text)@ + padded_front(decimal(value as nat), width as int));
}

/// Appends `shown`, with blanks behind it up to `width` characters.
pub fn push_padded(text: &mut String, shown: &str, width: usize)
    ensures
        final(text)@ == old(text)@ + padded_end(shown@, width as int),
{
    text.append(shown);
    let length = shown.unicode_len();
    if length < width {
        push_repeated(text, ' ', width - length);
    }
    assert(text@ == old(text)@ + padded_end(shown@, width as int));
}

/// The bar between its brackets: the filled columns, the tip, the columns
/// still open.
pub open spec fn bar_text(current: usize, total: usize) -> Seq<char> {
    repeated('=', filled_columns(current, total) as nat) + ">"@ + repeated(
        ' ',
        (PROGRESS_LENGTH - filled_columns(current, total)) as nat,
    )
}

/// Appends the bar.
pub fn push_bar(text: &mut String, current: usize, total: usize)
    requires
        0 < total,
        current <= total,
    ensures
        final(text)@ == old(text)@ + bar_text(current, total),
{
    proof {
        let (done, all) = (current as int, total as int);
        assert(0 <= 20 * done / all <= 20) by (nonlinear_arith)
            requires
                0 <= done <= all,
                0 < all,
        ;
    }
    assert(PROGRESS_LENGTH == 20);
    let scaled: u128 = 20 * (current as u128);
    let filled = (scaled / (total as u128)) as usize;
    let remaining = PROGRESS_LENGTH - filled;
    push_repeated(text, '=', filled);
    text.append(">");
    push_repeated(text, ' ', remaining);
    assert(text@ == old(text)@ + bar_text(current, total));
}

/// Appends the time left.
pub fn push_eta(text: &mut String, eta: Option<u64>)
    ensures
        final(text)@ == old(text)@ + eta_text(eta),
{
    match eta {
        None => text.append("   "),
        Some(seconds) => {
            let minutes = seconds / 60 + (seconds % 60 + 30) / 60;
            assert(minutes == eta_minutes(seconds));
            if minutes == 0 {
                text.append(" <1m");
            } else if minutes > 999 {
                text.append("!!!m");
            } else {
                push_number(text, minutes as usize, 3);
                text.append("m");
                assert(text@ == old(text)@ + (padded_front(decimal(minutes as nat), 3) + "m"@));
            }
        },
    }
}

impl<'a> ProgressBarDisplay<'a> {
    /// Whether the frame can be laid out.
    pub open spec fn fits(self) -> bool {
        frame_fits(self.current, self.total, self.width)
    }

    /// The frame as text.
    pub open spec fn text(self) -> Seq<char> {
        display_text(self.current, self.total, self.message@, self.eta, self.width)
    }

    /// Writes the frame out.
    pub fn render(&self) -> (frame: String)
        requires
            self.fits(),
        ensures
            frame@ == self.text(),
    {
        let total_width = num_digits(self.total);
        let message_width = self.width - (2 * total_width + 3) - (PROGRESS_LENGTH + 5) - 4;
        let message = cut_message(self.message, message_width);
        let mut frame = String::new();
        push_number(&mut frame, self.current, total_width);
        frame.append("/");
        push_decimal(&mut frame, self.total);
        frame.append(": ");
        push_padded(&mut frame, message, message_width);
        frame.append(" [");
        push_bar(&mut frame, self.current, self.total);
        frame.append("] ");
        push_eta(&mut frame, self.eta);
        proof {
            let number = padded_front(decimal(self.current as nat), total_width as int);
            let shown = padded_end(message@, message_width as int);
            let bar = bar_text(self.current, self.total);
            let filled = repeated('=', filled_columns(self.current, self.total) as nat);
            let open = repeated(
                ' ',
                (PROGRESS_LENGTH - filled_columns(self.current, self.total)) as nat,
            );
            assert(frame@ == Seq::<char>::empty() + number + "/"@ + decimal(self.total as nat)
                + ": "@ + shown + " ["@ + bar + "] "@ + eta_text(self.eta));
            assert(Seq::<char>::empty() + number == number);
            assert(number + "/"@ + decimal(self.total as nat) + ": "@ + shown + " ["@ + bar
                == number + "/"@ + decimal(self.total as nat) + ": "@ + shown + " ["@ + filled
                + ">"@ + open);
        }
        frame
    }
}

/// The time left in whole seconds once `current` of `total` tasks took
/// `elapsed` milliseconds: each task left is given the whole milliseconds
/// that a task took so far. It cannot be told before the second task, and
/// what does not fit is the greatest value.
pub open spec fn eta_after(current: nat, total: nat, elapsed: nat) -> Option<u64> {
    if current > 1 {
        let seconds = (total - current) * (elapsed / current) / 1000;
        if seconds > u64::MAX {
            Some(u64::MAX)
        } else {
            Some(seconds as u64)
        }
    } else {
        None
    }
}

/// Decides `eta_after`.
pub fn estimate(current: usize, total: usize, elapsed: u128) -> (eta: Option<u64>)
    requires
        current <= total,
    ensures
        eta == eta_after(current as nat, total as nat, elapsed as nat),
{
    if current > 1 {
        let per_task = elapsed / (current as u128);
        let left = (total - current) as u128;
        assert(0 <= left * per_task) by (nonlinear_arith)
            requires
                0 <= left,
                0 <= per_task,
        ;
        match left.checked_mul(per_task) {
            Some(millis) => {
                let seconds = millis / 1000;
                if seconds > u64::MAX as u128 {
                    Some(u64::MAX)
                } else {
                    Some(seconds as u64)
                }
            },
            None => {
                assert(left * per_task / 1000 > u64::MAX);
                Some(u64::MAX)
            },
        }
    } else {
        None
    }
}

/// The frame drawn for a state of the bar: a carriage return, then what
/// the bar shows `elapsed` milliseconds after it was started.
pub open spec fn frame_text(current: usize, total: usize, message: Seq<char>, elapsed: nat) -> Seq<
    char,
> {
    seq!['\r'] + display_text(
        current,
        total,
        message,
        eta_after(current as nat, total as nat, elapsed),
        WIDTH,
    )
}

/// The text that blanks a frame out: a carriage return, a blank for each
/// column, a carriage return.
pub open spec fn blank_line() -> Seq<char> {
    seq!['\r'] + repeated(' ', WIDTH as nat) + seq!['\r']
}

/// Appends the text that blanks a frame out.
pub fn push_blank_line(text: &mut String)
    ensures
        final(text)@ == old(text)@ + blank_line(),
{
    push_char(text, '\r');
    push_repeated(text, ' ', WIDTH);
    push_char(text, '\r');
    assert(text@ == old(text)@ + blank_line());
}

/// The progress of a run: when it began, how many of its tasks are done,
/// and whether a frame has been drawn.
pub struct ProgressBarState {
    pub start: std::time::Instant,
    pub current: usize,
    pub total: usize,
    pub displayed: bool,
}

impl ProgressBarState {
    /// Whether a frame can be drawn: there is a task, no more are done than
    /// there are, and the counters leave room in the frame.
    pub open spec fn drawable(self) -> bool {
        &&& 0 < self.total
        &&& self.current <= self.total
        &&& digit_count(self.total as nat) <= 19
    }

    /// A run of `total` tasks that begins now.
    pub fn new(total: usize) -> (state: ProgressBarState)
        ensures
            state.current == 0,
            state.total == total,
            !state.displayed,
    {
        ProgressBarState { start: now(), current: 0, total, displayed: false }
    }

    /// Counts one more task as done and draws the frame for it. The frame
    /// is the one for some time elapsed since the start.
    pub fn inc(&mut self, message: &str) -> (frame: String)
        requires
            old(self).drawable(),
            old(self).current < old(self).total,
        ensures
            final(self).current == old(self).current + 1,
            final(self).total == old(self).total,
            final(self).start == old(self).start,
            final(self).displayed,
            final(self).draws(frame@, message@),
    {
        self.current = self.current + 1;
        self.redraw(message)
    }

    /// Draws the frame for the present moment.
    pub fn redraw(&mut self, message: &str) -> (frame: String)
        requires
            old(self).drawable(),
        ensures
            final(self).current == old(self).current,
            final(self).total == old(self).total,
            final(self).start == old(self).start,
            final(self).displayed,
            final(self).draws(frame@, message@),
    {
        let present = now();
        let elapsed = whole_millis(&duration_between(&present, &self.start));
        let frame = self.redraw_after(message, elapsed);
        assert(frame@ == frame_text(self.current, self.total, message@, elapsed as nat));
        frame
    }

    /// Draws the frame for the moment `elapsed` milliseconds after the
    /// start, and notes that a frame has been drawn.
    pub fn redraw_after(&mut self, message: &str, elapsed: u128) -> (frame: String)
        requires
            old(self).drawable(),
        ensures
            final(self).current == old(self).current,
            final(self).total == old(self).total,
            final(self).start == old(self).start,
            final(self).displayed,
            frame@ == frame_text(final(self).current, final(self).total, message@, elapsed as nat),
    {
        self.displayed = true;
        let eta = estimate(self.current, self.total, elapsed);
        let display = self.display(message, eta, WIDTH);
        let mut frame = String::new();
        push_char(&mut frame, '\r');
        let shown = display.render();
        frame.append(shown.as_str());
        assert(Seq::<char>::empty().push('\r') == seq!['\r']);
        frame
    }

    /// What the bar shows for `message`, a time left and a width.
    pub fn display<'a>(&self, message: &'a str, eta: Option<u64>, width: usize) -> (shown:
        ProgressBarDisplay<'a>)
        ensures
            shown.current == self.current,
            shown.total == self.total,
            shown.message@ == message@,
            shown.eta == eta,
            shown.width == width,
    {
        ProgressBarDisplay { current: self.current, total: self.total, message, eta, width }
    }

    /// What wipes the bar off the terminal when the run is over: the text
    /// that blanks the frame out if one was drawn, and nothing otherwise.
    pub fn clear(&self) -> (wipe: Option<String>)
        ensures
            self.displayed ==> (wipe matches Some(text) && text@ == blank_line()),
            !self.displayed ==> wipe is None,
    {
        if self.displayed {
            let mut text = String::new();
            push_blank_line(&mut text);
            assert(Seq::<char>::empty() + blank_line() == blank_line());
            Some(text)
        } else {
            None
        }
    }
}

impl ProgressBarState {
    /// Whether `self` is `before` with a frame drawn and `counted` more
    /// tasks done.
    pub open spec fn follows(self, before: ProgressBarState, counted: nat) -> bool {
        &&& self.current == before.current + counted
        &&& self.total == before.total
        &&& self.start == before.start
        &&& self.displayed
    }

    /// Whether `text` is a frame of this state with `message`, drawn for
    /// some time elapsed since the start.
    pub open spec fn draws(self, text: Seq<char>, message: Seq<char>) -> bool {
        exists|elapsed: nat| text == #[trigger] frame_text(self.current, self.total, message, elapsed)
    }
}

/// The two streams a program writes to.
#[derive(Clone, Copy, Debug, PartialEq, Eq, Structural)]
pub enum OutputStream {
    Stdout,
    Stderr,
}

/// `atty::is`: whether the stream is attached to a terminal. That is a
/// fact of the surroundings, so nothing is claimed of it.
#[verifier::external_body]
fn is_terminal(stream: OutputStream) -> bool {
    atty::is(
        match stream {
            OutputStream::Stdout => atty::Stream::Stdout,
            OutputStream::Stderr => atty::Stream::Stderr,
        },
    )
}

/// What a call has for the two streams.
pub struct Printed {
    /// The text for standard output.
    pub stdout: String,
    /// The text for standard error, if there is any.
    pub stderr: Option<String>,
}

/// A progress bar that is drawn only where standard error is a terminal,
/// and the lines printed around it.
pub struct ProgressBar {
    pub stdout_is_tty: bool,
    pub stderr_is_tty: bool,
    pub progress_bar: Option<ProgressBarState>,
}

impl Default for ProgressBar {
    /// A bar for streams that are no terminals: it never draws.
    fn default() -> (bar: ProgressBar)
        ensures
            !bar.stdout_is_tty,
            !bar.stderr_is_tty,
            bar.progress_bar is None,
    {
        ProgressBar { stdout_is_tty: false, stderr_is_tty: false, progress_bar: None }
    }
}

impl ProgressBar {
    /// Whether the bar, if one is up, can be redrawn.
    pub open spec fn drawable(self) -> bool {
        self.progress_bar matches Some(state) ==> state.drawable()
    }

    /// Whether one more task can be counted.
    pub open spec fn unfinished(self) -> bool {
        self.progress_bar matches Some(state) ==> state.current < state.total
    }

    /// A bar for the streams of this process, with no run begun. Whether
    /// the streams are terminals is asked of the surroundings, so all that
    /// holds of every answer is that no run has begun; `on_streams` says
    /// what the bar is for each answer.
    pub fn new() -> (bar: ProgressBar)
        ensures
            bar.progress_bar is None,
    {
        let stdout_is_tty = is_terminal(OutputStream::Stdout);
        let stderr_is_tty = is_terminal(OutputStream::Stderr);
        ProgressBar::on_streams(stdout_is_tty, stderr_is_tty)
    }

    /// A bar for streams of which it is known whether they are terminals,
    /// with no run begun.
    pub fn on_streams(stdout_is_tty: bool, stderr_is_tty: bool) -> (bar: ProgressBar)
        ensures
            bar.stdout_is_tty == stdout_is_tty,
            bar.stderr_is_tty == stderr_is_tty,
            bar.progress_bar is None,
    {
        ProgressBar { stdout_is_tty, stderr_is_tty, progress_bar: None }
    }

    /// Begins a run of `total` tasks and returns its first frame for
    /// standard error. Where standard error is no terminal nothing begins
    /// and there is no frame.
    pub fn display_progress(&mut self, total: usize, message: &str) -> (frame: Option<String>)
        requires
            old(self).stderr_is_tty ==> 0 < total && digit_count(total as nat) <= 19,
        ensures
            final(self).stdout_is_tty == old(self).stdout_is_tty,
            final(self).stderr_is_tty == old(self).stderr_is_tty,
            !old(self).stderr_is_tty ==> frame is None && final(self).progress_bar == old(self).progress_bar,
            old(self).stderr_is_tty ==> match (final(self).progress_bar, frame) {
                (Some(state), Some(text)) => {
                    &&& state.current == 0
                    &&& state.total == total
                    &&& state.displayed
                    &&& text@ == frame_text(0, total, message@, 0)
                },
                _ => false,
            },
    {
        if !self.stderr_is_tty {
            return None;
        }
        let mut progress_bar = ProgressBarState::new(total);
        let frame = progress_bar.redraw(message);
        self.progress_bar = Some(progress_bar);
        Some(frame)
    }

    /// Counts one more task of the run as done and returns the frame for
    /// standard error, drawn for some time elapsed since the run began.
    /// Without a run nothing changes and there is no frame.
    pub fn inc_progress(&mut self, message: &str) -> (frame: Option<String>)
        requires
            old(self).drawable(),
            old(self).unfinished(),
        ensures
            final(self).stdout_is_tty == old(self).stdout_is_tty,
            final(self).stderr_is_tty == old(self).stderr_is_tty,
            match (old(self).progress_bar, final(self).progress_bar, frame) {
                (None, None, None) => true,
                (Some(before), Some(state), Some(text)) => state.follows(before, 1) && state.draws(
                    text@,
                    message@,
                ),
                _ => false,
            },
    {
        match self.progress_bar.take() {
            Some(mut state) => {
                let frame = state.inc(message);
                self.progress_bar = Some(state);
                Some(frame)
            },
            None => None,
        }
    }

    /// A line for standard output. Where a run is on and standard output is
    /// a terminal, the line first blanks the bar out, and the bar is drawn
    /// again on standard error.
    pub fn println(&mut self, progress_message: &str, message: &str) -> (printed: Printed)
        requires
            old(self).drawable(),
        ensures
            final(self).stdout_is_tty == old(self).stdout_is_tty,
            final(self).stderr_is_tty == old(self).stderr_is_tty,
            match (old(self).progress_bar, final(self).progress_bar, printed.stderr) {
                (Some(before), Some(state), Some(text)) => {
                    &&& old(self).stdout_is_tty
                    &&& printed.stdout@ == blank_line() + message@ + seq!['\n']
                    &&& state.follows(before, 0)
                    &&& state.draws(text@, progress_message@)
                },
                (before, state, None) => {
                    &&& before is None || !old(self).stdout_is_tty
                    &&& printed.stdout@ == message@ + seq!['\n']
                    &&& state == before
                },
                _ => false,
            },
    {
        let mut stdout = String::new();
        if self.stdout_is_tty {
            match self.progress_bar.take() {
                Some(mut state) => {
                    push_blank_line(&mut stdout);
                    stdout.append(message);
                    push_char(&mut stdout, '\n');
                    let frame = state.redraw(progress_message);
                    self.progress_bar = Some(state);
                    assert(stdout@ == blank_line() + message@ + seq!['\n']);
                    return Printed { stdout, stderr: Some(frame) };
                },
                None => {},
            }
        }
        stdout.append(message);
        push_char(&mut stdout, '\n');
        assert(stdout@ == message@ + seq!['\n']);
        Printed { stdout, stderr: None }
    }

    /// A line for standard error. Where a run is on, the line first blanks
    /// the bar out, and the bar is drawn again behind it.
    pub fn eprintln(&mut self, progress_message: &str, message: &str) -> (printed: String)
        requires
            old(self).drawable(),
        ensures
            final(self).stdout_is_tty == old(self).stdout_is_tty,
            final(self).stderr_is_tty == old(self).stderr_is_tty,
            match (old(self).progress_bar, final(self).progress_bar) {
                (None, None) => printed@ == message@ + seq!['\n'],
                (Some(before), Some(state)) => {
                    &&& state.follows(before, 0)
                    &&& exists|elapsed: nat|
                        printed@ == blank_line() + message@ + seq!['\n'] + #[trigger] frame_text(
                            state.current,
                            state.total,
                            progress_message@,
                            elapsed,
                        )
                },
                _ => false,
            },
    {
        let mut printed = String::new();
        match self.progress_bar.take() {
            Some(mut state) => {
                push_blank_line(&mut printed);
                printed.append(message);
                push_char(&mut printed, '\n');
                let frame = state.redraw(progress_message);
                printed.append(frame.as_str());
                assert(printed@ == blank_line() + message@ + seq!['\n'] + frame@);
                self.progress_bar = Some(state);
                assert(self.progress_bar matches Some(after) && after.follows(
                    old(self).progress_bar->0,
                    0,
                ));
                assert(exists|elapsed: nat|
                        printed@ == blank_line() + message@ + seq!['\n'] + #[trigger] frame_text(
                            state.current,
                            state.total,
                            progress_message@,
                            elapsed,
                        ));
            },
            None => {
                printed.append(message);
                push_char(&mut printed, '\n');
                assert(printed@ == message@ + seq!['\n']);
                assert(self.progress_bar is None);
                assert(old(self).progress_bar is None);
            },
        }
        printed
    }
}

} // verus!
