//! The state behind a plain textual progress display, and the lines that it
//! shows. Printing, the clock and the percentage are the caller's.

use vstd::prelude::*;
use vstd::string::*;

verus! {

/// How far a task of `total` steps has come.
#[derive(Debug, Clone, PartialEq, Eq)]
pub struct SimpleProgress {
    pub total: u64,
    pub current: u64,
    pub current_message: String,
    pub finish_message: String,
}

/// What the display shows.
#[derive(Debug, Clone, Copy, PartialEq, Eq)]
pub enum ProgressLayout {
    /// The closing line and the finish message.
    Finished,
    /// The progress line alone.
    Bare,
    /// The progress line and the current message.
    WithMessage,
}

/// The layout for a display that stands at `percent` percent with the
/// current message `message`.
pub open spec fn layout_of(percent: u8, message: Seq<char>) -> ProgressLayout {
    if percent >= 100 {
        ProgressLayout::Finished
    } else if message.len() == 0 {
        ProgressLayout::Bare
    } else {
        ProgressLayout::WithMessage
    }
}

/// The time that the rest of the task is expected to take when `current`
/// of `total` steps took `elapsed`: the steps that are left, at the pace so
/// far, rounded down; zero before the first step.
pub open spec fn eta_of(total: u64, current: u64, elapsed: u64) -> int {
    if current > 0 {
        (elapsed * (total - current)) / (current as int)
    } else {
        0
    }
}

/// The character for one decimal digit.
pub open spec fn digit_of(d: nat) -> char {
    "0123456789"@[d as int]
}

/// The decimal numeral for `n`, without leading zeros.
pub open spec fn decimal_of(n: nat) -> Seq<char>
    decreases n,
{
    if n < 10 {
        seq![digit_of(n)]
    } else {
        decimal_of(n / 10).push(digit_of(n % 10))
    }
}

/// `text`, with spaces in front of it until it is `width` characters wide.
pub open spec fn padded_of(text: Seq<char>, width: nat) -> Seq<char>
    decreases width - text.len(),
{
    if text.len() >= width {
        text
    } else {
        padded_of(seq![' '] + text, width)
    }
}

/// The opening of every progress line: the percentage in a field of three
/// characters, between brackets.
pub open spec fn gauge_of(percent: u8) -> Seq<char> {
    "["@ + padded_of(decimal_of(percent as nat), 3) + "%] "@
}

/// The progress line of a task under way.
pub open spec fn running_line_of(
    percent: u8,
    current: u64,
    total: u64,
    elapsed: u64,
    eta: u64,
) -> Seq<char> {
    gauge_of(percent) + decimal_of(current as nat) + "/"@ + decimal_of(total as nat) + " ("@
        + decimal_of(elapsed as nat) + "s, ETA: "@ + decimal_of(eta as nat) + "s)"@
}

/// The closing line of a task that is done.
pub open spec fn closing_line_of(percent: u8, total: u64, elapsed: u64) -> Seq<char> {
    gauge_of(percent) + decimal_of(total as nat) + "/"@ + decimal_of(total as nat) + " ("@
        + decimal_of(elapsed as nat) + "s)"@
}

/// A message as the display shows it, under the progress line.
pub open spec fn message_line_of(message: Seq<char>) -> Seq<char> {
    "   "@ + message
}

/// The lines of the display, top to bottom.
pub open spec fn lines_of(progress: SimpleProgress, percent: u8, elapsed: u64) -> Seq<Seq<char>> {
    let eta = eta_of(progress.total, progress.current, elapsed) as u64;
    match layout_of(percent, progress.current_message@) {
        ProgressLayout::Finished => seq![
            closing_line_of(percent, progress.total, elapsed),
            message_line_of(progress.finish_message@),
        ],
        ProgressLayout::Bare => seq![
            running_line_of(percent, progress.current, progress.total, elapsed, eta),
        ],
        ProgressLayout::WithMessage => seq![
            running_line_of(percent, progress.current, progress.total, elapsed, eta),
            message_line_of(progress.current_message@),
        ],
    }
}

fn digit(d: u64) -> (r: &'static str)
    requires
        d < 10,
    ensures
        r@ == seq![digit_of(d as nat)],
{
    proof {
        reveal_strlit("0123456789");
        reveal_strlit("0");
        reveal_strlit("1");
        reveal_strlit("2");
        reveal_strlit("3");
        reveal_strlit("4");
        reveal_strlit("5");
        reveal_strlit("6");
        reveal_strlit("7");
        reveal_strlit("8");
        reveal_strlit("9");
    }
    let r = if d == 0 {
        "0"
    } else if d == 1 {
        "1"
    } else if d == 2 {
        "2"
    } else if d == 3 {
        "3"
    } else if d == 4 {
        "4"
    } else if d == 5 {
        "5"
    } else if d == 6 {
        "6"
    } else if d == 7 {
        "7"
    } else if d == 8 {
        "8"
    } else {
        "9"
    };
    assert(r@ =~= seq![digit_of(d as nat)]);
    r
}

/// Writes `n` in decimal.
pub fn decimal(n: u64) -> (r: String)
    ensures
        r@ == decimal_of(n as nat),
    decreases n,
{
    if n < 10 {
        String::from_str(digit(n))
    } else {
        let mut r = decimal(n / 10);
        r.append(digit(n % 10));
        r
    }
}

/// Puts spaces in front of `text` until it is `width` characters wide.
pub fn padded(text: String, width: usize) -> (r: String)
    ensures
        r@ == padded_of(text@, width as nat),
{
    let mut r = text;
    let mut len: usize = r.as_str().unicode_len();
    while len < width
        invariant
            len == r@.len(),
            padded_of(r@, width as nat) == padded_of(text@, width as nat),
        decreases width - len,
    {
        proof {
            reveal_strlit(" ");
            assert(" "@ =~= seq![' ']);
        }
        let mut wider = String::from_str(" ");
        wider.append(r.as_str());
        r = wider;
        len = len + 1;
    }
    r
}

fn gauge(percent: u8) -> (r: String)
    ensures
        r@ == gauge_of(percent),
{
    let mut r = String::from_str("[");
    let number = padded(decimal(percent as u64), 3);
    r.append(number.as_str());
    r.append("%] ");
    r
}

impl SimpleProgress {
    /// A task of `total` steps, none of them done, without a message.
    pub fn new(total: u64, finish_message: &str) -> (r: Self)
        ensures
            r.total == total,
            r.current == 0,
            r.current_message@ == Seq::<char>::empty(),
            r.finish_message@ == finish_message@,
    {
        SimpleProgress {
            total,
            current: 0,
            current_message: String::new(),
            finish_message: String::from_str(finish_message),
        }
    }

    /// Replaces the current message.
    pub fn set_message(&mut self, message: &str)
        ensures
            final(self).current_message@ == message@,
            final(self).total == old(self).total,
            final(self).current == old(self).current,
            final(self).finish_message == old(self).finish_message,
    {
        self.current_message = String::from_str(message);
    }

    /// Counts one more step as done.
    pub fn inc(&mut self)
        requires
            old(self).current < u64::MAX,
        ensures
            final(self).current == old(self).current + 1,
            final(self).total == old(self).total,
            final(self).current_message == old(self).current_message,
            final(self).finish_message == old(self).finish_message,
    {
        self.current = self.current + 1;
    }

    /// Replaces the current message and counts one more step as done.
    pub fn set_message_and_inc(&mut self, message: &str)
        requires
            old(self).current < u64::MAX,
        ensures
            final(self).current_message@ == message@,
            final(self).current == old(self).current + 1,
            final(self).total == old(self).total,
            final(self).finish_message == old(self).finish_message,
    {
        self.current_message = String::from_str(message);
        self.inc();
    }

    /// The expected time for the rest of the task, `elapsed` having passed
    /// since its start.
    pub fn eta(&self, elapsed: u64) -> (r: u64)
        requires
            self.current <= self.total,
            elapsed * (self.total - self.current) <= u64::MAX,
        ensures
            r == eta_of(self.total, self.current, elapsed),
    {
        if self.current > 0 {
            let left: u64 = self.total - self.current;
            elapsed * left / self.current
        } else {
            0
        }
    }

    /// The lines that the display shows at `percent` percent, `elapsed`
    /// having passed since the start of the task: the progress line, and
    /// under it the current message if there is one; for a task that is
    /// done, the closing line and the finish message.
    pub fn render(&self, percent: u8, elapsed: u64) -> (lines: Vec<String>)
        requires
            self.current <= self.total,
            elapsed * (self.total - self.current) <= u64::MAX,
        ensures
            lines@.len() == lines_of(*self, percent, elapsed).len(),
            forall|i: int|
                0 <= i < lines@.len() ==> (#[trigger] lines@[i])@ == lines_of(
                    *self,
                    percent,
                    elapsed,
                )[i],
    {
        let eta = self.eta(elapsed);
        let mut lines: Vec<String> = Vec::new();
        let mut line = gauge(percent);
        match self.layout(percent) {
            ProgressLayout::Finished => {
                line.append(decimal(self.total).as_str());
                line.append("/");
                line.append(decimal(self.total).as_str());
                line.append(" (");
                line.append(decimal(elapsed).as_str());
                line.append("s)");
                lines.push(line);
                let mut message = String::from_str("   ");
                message.append(self.finish_message.as_str());
                lines.push(message);
            },
            ProgressLayout::Bare => {
                line.append(decimal(self.current).as_str());
                line.append("/");
                line.append(decimal(self.total).as_str());
                line.append(" (");
                line.append(decimal(elapsed).as_str());
                line.append("s, ETA: ");
                line.append(decimal(eta).as_str());
                line.append("s)");
                lines.push(line);
            },
            ProgressLayout::WithMessage => {
                line.append(decimal(self.current).as_str());
                line.append("/");
                line.append(decimal(self.total).as_str());
                line.append(" (");
                line.append(decimal(elapsed).as_str());
                line.append("s, ETA: ");
                line.append(decimal(eta).as_str());
                line.append("s)");
                lines.push(line);
                let mut message = String::from_str("   ");
                message.append(self.current_message.as_str());
                lines.push(message);
            },
        }
        lines
    }

    /// The layout of the display at `percent` percent.
    pub fn layout(&self, percent: u8) -> (r: ProgressLayout)
        ensures
            r == layout_of(percent, self.current_message@),
    {
        if percent >= 100 {
            ProgressLayout::Finished
        } else if self.current_message.as_str().unicode_len() == 0 {
            ProgressLayout::Bare
        } else {
            ProgressLayout::WithMessage
        }
    }
}

} // verus!
