//! The text of the progress log: the unchanging part with the settings of
//! the run, one line per worker, and the summary of all workers. Numbers
//! with a fraction reach this module as text.

use crate::text::{
    decimal,
    digits,
    push_right_aligned,
    push_signed,
    push_unsigned,
    right_aligned,
};
use vstd::prelude::*;
use vstd::string::*;

verus! {

/// Back to the default colour of the terminal.
pub const WHITE: &'static str = "\x1B[0m";

/// Red, for the number of a worker.
pub const RED: &'static str = "\x1B[31m";

/// Yellow, for values.
pub const YELLOW: &'static str = "\x1B[33m";

/// Blue, for the name of the file.
pub const BLUE: &'static str = "\x1B[34m";

/// A value in yellow.
pub open spec fn in_yellow(value: Seq<char>) -> Seq<char> {
    YELLOW@ + value + WHITE@
}

/// The label and value of the width, as the first line starts.
pub open spec fn width_label(width: u64) -> Seq<char> {
    "width: "@ + in_yellow(digits(width as nat))
}

/// The label and value of the iteration cap, as the second line starts.
pub open spec fn iterations_label(iterations: i32) -> Seq<char> {
    "iterations: "@ + in_yellow(decimal(iterations as int))
}

/// A tabulator at the right end of a field of `width` characters.
pub open spec fn tab_field(width: nat) -> Seq<char> {
    right_aligned("\t"@, width)
}

/// A complex number with its two parts in yellow.
pub open spec fn complex_text(re: Seq<char>, im: Seq<char>) -> Seq<char> {
    "{ r: "@ + in_yellow(re) + ", i: "@ + YELLOW@ + im + " "@ + WHITE@ + "}"@
}

/// The unchanging part of the log. The shorter of the two labels `width`
/// and `iterations` is followed by a field as wide as the difference of
/// their lengths, so that what follows them lines up.
pub open spec fn static_msg_text(
    width: u64,
    height: u64,
    iterations: i32,
    sample_count: i32,
    c1: (Seq<char>, Seq<char>),
    c2: (Seq<char>, Seq<char>),
    filename: Seq<char>,
) -> Seq<char> {
    let w = width_label(width);
    let i = iterations_label(iterations);
    let w_field: nat = if w.len() > i.len() {
        0
    } else {
        (i.len() - w.len()) as nat
    };
    let i_field: nat = if w.len() > i.len() {
        (w.len() - i.len()) as nat
    } else {
        0
    };
    w + tab_field(w_field) + "height: "@ + in_yellow(digits(height as nat)) + "\n"@ + i + tab_field(
        i_field,
    ) + "samples: "@ + in_yellow(decimal(sample_count as int)) + "\n"@ + "complex1: "@
        + complex_text(c1.0, c1.1) + "\n"@ + "complex2: "@ + complex_text(c2.0, c2.1) + "\n"@
        + "filename: "@ + BLUE@ + filename + WHITE@
}

/// The line of one worker: its number, the samples it has done and has
/// left, each in a field of eight characters, and the share it has done in
/// a field of six.
pub open spec fn thread_msg_text(id: int, done: int, left: int, percent: Seq<char>) -> Seq<char> {
    "thread "@ + RED@ + decimal(id) + " "@ + WHITE@ + "{ done: "@ + in_yellow(
        right_aligned(decimal(done), 8),
    ) + ", left: "@ + in_yellow(right_aligned(decimal(left), 8)) + ", percent: "@ + YELLOW@
        + right_aligned(percent, 6) + "% "@ + WHITE@ + "done }"@
}

/// The summary of all workers, four lines: samples, share, time elapsed,
/// and time left of the time allowed.
pub open spec fn status_msg_text(
    done: int,
    total: int,
    percent: Seq<char>,
    elapsed: nat,
    timeout: nat,
) -> Seq<char> {
    "samples done / total:   "@ + YELLOW@ + decimal(done) + " "@ + WHITE@ + "/"@ + YELLOW@ + " "@
        + decimal(total) + WHITE@ + "\n"@ + "percentage done:        "@ + YELLOW@ + percent + "%"@
        + WHITE@ + "\n"@ + "time elapsed:           "@ + YELLOW@ + digits(elapsed) + "s"@ + WHITE@
        + "\n"@ + "left / maximum runtime: "@ + YELLOW@ + digits((timeout - elapsed) as nat) + "s "@
        + WHITE@ + "/"@ + YELLOW@ + " "@ + digits(timeout) + "s"@ + WHITE@ + "\n"@
}

/// Appends a value in yellow.
fn push_yellow(out: &mut String, value: &str)
    ensures
        final(out)@ == old(out)@ + in_yellow(value@),
{
    out.append(YELLOW);
    out.append(value);
    out.append(WHITE);
    assert(out@ =~= old(out)@ + in_yellow(value@));
}

/// A natural number in decimal.
fn unsigned_text(n: u64) -> (s: String)
    ensures
        s@ == digits(n as nat),
{
    let mut s = String::new();
    push_unsigned(&mut s, n);
    assert(s@ =~= digits(n as nat));
    s
}

/// An integer in decimal.
fn signed_text(n: i64) -> (s: String)
    ensures
        s@ == decimal(n as int),
{
    let mut s = String::new();
    push_signed(&mut s, n);
    assert(s@ =~= decimal(n as int));
    s
}

/// Appends a tabulator at the right end of a field.
fn push_tab_field(out: &mut String, width: usize)
    ensures
        final(out)@ == old(out)@ + tab_field(width as nat),
{
    push_right_aligned(out, "\t", width);
}

/// Appends a complex number.
fn push_complex(out: &mut String, re: &str, im: &str)
    ensures
        final(out)@ == old(out)@ + complex_text(re@, im@),
{
    let mut c = String::new();
    c.append("{ r: ");
    push_yellow(&mut c, re);
    c.append(", i: ");
    c.append(YELLOW);
    c.append(im);
    c.append(" ");
    c.append(WHITE);
    c.append("}");
    assert(c@ =~= complex_text(re@, im@));
    out.append(c.as_str());
}

/// The unchanging part of the log: the settings of the run. The two
/// complex numbers come as the text of their real and imaginary parts.
pub fn static_msg(
    width: u64,
    height: u64,
    iterations: i32,
    sample_count: i32,
    c1: (&str, &str),
    c2: (&str, &str),
    filename: &str,
) -> (msg: String)
    ensures
        msg@ == static_msg_text(
            width,
            height,
            iterations,
            sample_count,
            (c1.0@, c1.1@),
            (c2.0@, c2.1@),
            filename@,
        ),
{
    let mut w = String::new();
    w.append("width: ");
    push_yellow(&mut w, unsigned_text(width).as_str());
    assert(w@ =~= width_label(width));
    let mut i = String::new();
    i.append("iterations: ");
    push_yellow(&mut i, signed_text(iterations as i64).as_str());
    assert(i@ =~= iterations_label(iterations));
    let w_len = w.as_str().unicode_len();
    let i_len = i.as_str().unicode_len();
    let w_field: usize = if w_len > i_len {
        0
    } else {
        i_len - w_len
    };
    let i_field: usize = if w_len > i_len {
        w_len - i_len
    } else {
        0
    };
    let mut msg = String::new();
    msg.append(w.as_str());
    push_tab_field(&mut msg, w_field);
    msg.append("height: ");
    push_yellow(&mut msg, unsigned_text(height).as_str());
    msg.append("\n");
    msg.append(i.as_str());
    push_tab_field(&mut msg, i_field);
    msg.append("samples: ");
    push_yellow(&mut msg, signed_text(sample_count as i64).as_str());
    msg.append("\n");
    msg.append("complex1: ");
    push_complex(&mut msg, c1.0, c1.1);
    msg.append("\n");
    msg.append("complex2: ");
    push_complex(&mut msg, c2.0, c2.1);
    msg.append("\n");
    msg.append("filename: ");
    msg.append(BLUE);
    msg.append(filename);
    msg.append(WHITE);
    assert(msg@ =~= static_msg_text(
        width,
        height,
        iterations,
        sample_count,
        (c1.0@, c1.1@),
        (c2.0@, c2.1@),
        filename@,
    ));
    msg
}

/// The line of one worker. `data` is the number of the worker and the
/// samples it has left, `total` the samples it was given, and `percent` the
/// text of the share it has done.
pub fn thread_msg(data: (i32, i32), total: i32, percent: &str) -> (msg: String)
    ensures
        msg@ == thread_msg_text(data.0 as int, total - data.1, data.1 as int, percent@),
{
    let done: i64 = total as i64 - data.1 as i64;
    let mut msg = String::new();
    msg.append("thread ");
    msg.append(RED);
    push_signed(&mut msg, data.0 as i64);
    msg.append(" ");
    msg.append(WHITE);
    msg.append("{ done: ");
    let mut field = String::new();
    push_right_aligned(&mut field, signed_text(done).as_str(), 8);
    assert(field@ =~= right_aligned(decimal(done as int), 8));
    push_yellow(&mut msg, field.as_str());
    msg.append(", left: ");
    let mut field = String::new();
    push_right_aligned(&mut field, signed_text(data.1 as i64).as_str(), 8);
    assert(field@ =~= right_aligned(decimal(data.1 as int), 8));
    push_yellow(&mut msg, field.as_str());
    msg.append(", percent: ");
    msg.append(YELLOW);
    push_right_aligned(&mut msg, percent, 6);
    msg.append("% ");
    msg.append(WHITE);
    msg.append("done }");
    msg
}

/// The summary of all workers. `percent` is the text of the share that is
/// done; `elapsed` and `timeout` are whole seconds, and the time allowed
/// has not run out.
pub fn status_msg(done: i64, total: i32, percent: &str, elapsed: u64, timeout: u64) -> (msg: String)
    requires
        elapsed <= timeout,
    ensures
        msg@ == status_msg_text(done as int, total as int, percent@, elapsed as nat, timeout as nat),
{
    let mut msg = String::new();
    msg.append("samples done / total:   ");
    msg.append(YELLOW);
    push_signed(&mut msg, done);
    msg.append(" ");
    msg.append(WHITE);
    msg.append("/");
    msg.append(YELLOW);
    msg.append(" ");
    push_signed(&mut msg, total as i64);
    msg.append(WHITE);
    msg.append("\n");
    msg.append("percentage done:        ");
    msg.append(YELLOW);
    msg.append(percent);
    msg.append("%");
    msg.append(WHITE);
    msg.append("\n");
    msg.append("time elapsed:           ");
    msg.append(YELLOW);
    push_unsigned(&mut msg, elapsed);
    msg.append("s");
    msg.append(WHITE);
    msg.append("\n");
    msg.append("left / maximum runtime: ");
    msg.append(YELLOW);
    push_unsigned(&mut msg, timeout - elapsed);
    msg.append("s ");
    msg.append(WHITE);
    msg.append("/");
    msg.append(YELLOW);
    msg.append(" ");
    push_unsigned(&mut msg, timeout);
    msg.append("s");
    msg.append(WHITE);
    msg.append("\n");
    msg
}

} // verus!
