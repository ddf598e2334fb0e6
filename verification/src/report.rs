//! What one refresh puts on the screen: the header, the status of the run,
//! and the output that was captured.

use crate::digits::{signed_decimal_string, signed_decimal_text};
use crate::interval::Interval;
use crate::system::{is_timestamp, timestamp};
use crate::text::{decode_lossy, decoded_text, trim_end, trimmed_end};
use vstd::prelude::*;
use vstd::string::*;

verus! {

/// What is watched, and how often: fixed once the program has started.
#[derive(Clone, Debug)]
pub struct Watch {
    /// The name of the machine, as the header shows it.
    pub hostname: String,
    /// The time between two refreshes.
    pub interval: Interval,
    /// The program to run.
    pub command: String,
    /// Its arguments, in order.
    pub args: Vec<String>,
}

/// How one run of the command ended, and what it wrote.
#[derive(Clone, Debug)]
pub struct Outcome {
    /// The exit code, where the command exited by itself.
    pub code: Option<i32>,
    /// The signal that ended the command, where one did.
    pub signal: Option<i32>,
    /// What the command wrote to its standard output.
    pub stdout: Vec<u8>,
    /// What the command wrote to its standard error.
    pub stderr: Vec<u8>,
}

/// One refresh of the screen.
#[derive(Clone, Debug)]
pub struct Frame {
    /// What goes to standard output.
    pub out: String,
    /// What goes to standard error.
    pub err: String,
}

/// The sequence that clears the terminal and puts the cursor in its top left corner.
pub open spec fn clear_screen() -> Seq<char> {
    "\x1B[2J\x1B[1;1H"@
}

/// The command and its arguments with one space between each two.
pub open spec fn joined(cmd: Seq<char>, args: Seq<String>) -> Seq<char>
    decreases args.len(),
{
    if args.len() == 0 {
        cmd
    } else {
        joined(cmd, args.drop_last()) + seq![' '] + args.last()@
    }
}

/// The line that tells how the run ended, where there is something to tell:
/// an exit code other than zero, or else a signal.
pub open spec fn status_text(code: Option<i32>, signal: Option<i32>) -> Option<Seq<char>> {
    match code {
        Some(k) => if k != 0 {
            Some("watch command exited with return code: "@ + signed_decimal_text(k as int))
        } else {
            None
        },
        None => match signal {
            Some(n) => Some("watch command killed by signal: "@ + signed_decimal_text(n as int)),
            None => None,
        },
    }
}

/// The two lines of the header, and the empty line below them.
pub open spec fn header_text(
    host: Seq<char>,
    time: Seq<char>,
    label: Seq<char>,
    line: Seq<char>,
) -> Seq<char> {
    "Hostname: "@ + host + "  Time: "@ + time + "\n"@ + "Every "@ + label + ": "@ + line + "\n"@
        + "\n"@
}

/// The status line with its line end, or nothing.
pub open spec fn status_block(status: Option<Seq<char>>) -> Seq<char> {
    match status {
        Some(t) => t + "\n"@,
        None => Seq::empty(),
    }
}

/// All that one refresh writes to standard output.
pub open spec fn screen_text(
    host: Seq<char>,
    time: Seq<char>,
    label: Seq<char>,
    line: Seq<char>,
    status: Option<Seq<char>>,
    stdout: Seq<char>,
) -> Seq<char> {
    clear_screen() + header_text(host, time, label, line) + status_block(status) + trimmed_end(
        stdout,
    ) + "\n"@
}

/// All that one refresh writes to standard error: the run's errors without
/// the white space at their end, and a line end; nothing where nothing is
/// left of them.
pub open spec fn error_text(stderr: Seq<char>) -> Seq<char> {
    if trimmed_end(stderr).len() == 0 {
        Seq::empty()
    } else {
        trimmed_end(stderr) + "\n"@
    }
}

/// The command line as the header shows it.
pub fn command_line(cmd: &str, args: &Vec<String>) -> (r: String)
    ensures
        r@ == joined(cmd@, args@),
{
    let mut line = String::from_str(cmd);
    let mut i: usize = 0;
    assert(args@.subrange(0, 0) =~= Seq::<String>::empty());
    while i < args.len()
        invariant
            i <= args.len(),
            line@ == joined(cmd@, args@.subrange(0, i as int)),
        decreases args.len() - i,
    {
        proof {
            reveal_strlit(" ");
            let next = args@.subrange(0, i + 1);
            assert(next.drop_last() =~= args@.subrange(0, i as int));
            assert(next.last() == args@[i as int]);
            assert(" "@ =~= seq![' ']);
        }
        line.append(" ");
        line.append(args[i].as_str());
        i += 1;
    }
    assert(args@.subrange(0, i as int) =~= args@);
    line
}

/// The line that tells how the run ended: none after exit code zero, the code
/// after any other, and the signal where the run has no exit code.
pub fn status_line(code: Option<i32>, signal: Option<i32>) -> (r: Option<String>)
    ensures
        r is Some <==> status_text(code, signal) is Some,
        r is Some ==> r->0@ == status_text(code, signal)->0,
        code == Some(0i32) ==> r is None,
        code is Some && code->0 != 0 ==> r is Some,
{
    match code {
        Some(k) => {
            if k != 0 {
                let mut line = String::from_str("watch command exited with return code: ");
                let number = signed_decimal_string(k);
                line.append(number.as_str());
                Some(line)
            } else {
                None
            }
        },
        None => match signal {
            Some(n) => {
                let mut line = String::from_str("watch command killed by signal: ");
                let number = signed_decimal_string(n);
                line.append(number.as_str());
                Some(line)
            },
            None => None,
        },
    }
}

/// The two lines of the header, and the empty line below them.
pub fn header(host: &str, time: &str, label: &str, line: &str) -> (r: String)
    ensures
        r@ == header_text(host@, time@, label@, line@),
{
    let mut text = String::from_str("Hostname: ");
    text.append(host);
    text.append("  Time: ");
    text.append(time);
    text.append("\n");
    text.append("Every ");
    text.append(label);
    text.append(": ");
    text.append(line);
    text.append("\n");
    text.append("\n");
    text
}

impl Watch {
    /// The watch on the command that `tokens` spell: the program first, then
    /// its arguments. `None` where there is no token, and so no program.
    pub fn new(hostname: String, interval: Interval, tokens: &Vec<String>) -> (r: Option<Watch>)
        ensures
            r is Some <==> tokens@.len() > 0,
            r is Some ==> {
                let w = r->0;
                &&& w.hostname@ == hostname@
                &&& w.interval == interval
                &&& w.command@ == tokens@[0]@
                &&& w.args@.len() == tokens@.len() - 1
                &&& forall|i: int| 0 <= i < w.args@.len() ==> (#[trigger] w.args@[i])@ == tokens@[i + 1]@
            },
    {
        if tokens.len() == 0 {
            return None;
        }
        let command = tokens[0].clone();
        let mut args: Vec<String> = Vec::new();
        let mut i: usize = 1;
        while i < tokens.len()
            invariant
                1 <= i <= tokens@.len(),
                args@.len() == i - 1,
                forall|j: int| 0 <= j < args@.len() ==> (#[trigger] args@[j])@ == tokens@[j + 1]@,
            decreases tokens.len() - i,
        {
            args.push(tokens[i].clone());
            i += 1;
        }
        Some(Watch { hostname, interval, command, args })
    }

    /// What one refresh writes to standard output, given the time and the
    /// text that the run wrote.
    pub open spec fn out_text(
        &self,
        time: Seq<char>,
        code: Option<i32>,
        signal: Option<i32>,
        stdout: Seq<char>,
    ) -> Seq<char> {
        screen_text(
            self.hostname@,
            time,
            self.interval.label_text(),
            joined(self.command@, self.args@),
            status_text(code, signal),
            stdout,
        )
    }

    /// One refresh, from the time and the text that the run wrote: on
    /// standard output the cleared screen, the header, the status line if
    /// there is one, and the run's output without the white space at its end,
    /// then a line end; on standard error the run's errors, trimmed alike and
    /// with a line end, or nothing at all where the run left none.
    pub fn frame_of_text(
        &self,
        time: &str,
        code: Option<i32>,
        signal: Option<i32>,
        stdout: &str,
        stderr: &str,
    ) -> (r: Frame)
        ensures
            r.out@ == self.out_text(time@, code, signal, stdout@),
            r.err@ == error_text(stderr@),
    {
        let label = self.interval.label();
        let line = command_line(self.command.as_str(), &self.args);
        let head = header(self.hostname.as_str(), time, label.as_str(), line.as_str());
        let mut out = String::from_str("\x1B[2J\x1B[1;1H");
        out.append(head.as_str());
        match status_line(code, signal) {
            Some(status) => {
                out.append(status.as_str());
                out.append("\n");
            },
            None => {
                assert(out@ + Seq::<char>::empty() =~= out@);
            },
        }
        out.append(trim_end(stdout));
        out.append("\n");
        let errors = trim_end(stderr);
        let mut err = String::from_str(errors);
        if !errors.is_empty() {
            err.append("\n");
        }
        assert(out@ =~= self.out_text(time@, code, signal, stdout@));
        Frame { out, err }
    }

    /// One refresh, from the time and the outcome of the run: as
    /// `frame_of_text`, on the text that the captured bytes are shown as.
    pub fn frame(&self, time: &str, outcome: &Outcome) -> (r: Frame)
        ensures
            r.out@ == self.out_text(
                time@,
                outcome.code,
                outcome.signal,
                decoded_text(outcome.stdout@),
            ),
            r.err@ == error_text(decoded_text(outcome.stderr@)),
    {
        let stdout = decode_lossy(outcome.stdout.as_slice());
        let stderr = decode_lossy(outcome.stderr.as_slice());
        self.frame_of_text(time, outcome.code, outcome.signal, stdout.as_str(), stderr.as_str())
    }

    /// One refresh at the present time. Which time it is, is the clock's to
    /// say; the rest of the frame is as `frame` lays it out.
    pub fn refresh(&self, outcome: &Outcome) -> (r: Frame)
        ensures
            exists|time: Seq<char>|
                is_timestamp(time) && r.out@ == #[trigger] self.out_text(
                    time,
                    outcome.code,
                    outcome.signal,
                    decoded_text(outcome.stdout@),
                ),
            r.err@ == error_text(decoded_text(outcome.stderr@)),
    {
        let time = timestamp();
        self.frame(time.as_str(), outcome)
    }
}

} // verus!
