use butterbrot::report::{static_msg, status_msg, thread_msg, BLUE, RED, WHITE, YELLOW};

#[test]
fn colours_are_escape_sequences() {
    assert_eq!(WHITE, "\x1B[0m");
    assert_eq!(RED, "\x1B[31m");
    assert_eq!(YELLOW, "\x1B[33m");
    assert_eq!(BLUE, "\x1B[34m");
}

fn thread_msg_formatted(data: (i32, i32), total: i32) -> String {
    format!(
        "thread {r}{} {w}{{ done: {y}{1:>8}{w}, left: {y}{2:>8}{w}, percent: {y}{3:>6}% {w}done }}",
        data.0,
        total - data.1,
        data.1,
        ((total - data.1) as f32 / total as f32) * 100f32,
        w = WHITE,
        y = YELLOW,
        r = RED
    )
}

fn percent(done: i32, total: i32) -> String {
    format!("{}", (done as f32 / total as f32) * 100f32)
}

#[test]
fn thread_msg_exact() {
    let msg = thread_msg((3, 25), 100, "75");
    assert_eq!(
        msg,
        "thread \x1B[31m3 \x1B[0m{ done: \x1B[33m      75\x1B[0m, left: \x1B[33m      25\x1B[0m, percent: \x1B[33m    75% \x1B[0mdone }"
    );
}

#[test]
fn thread_msg_matches_format() {
    for (data, total) in [
        ((0, 0), 57),
        ((3, 25), 100),
        ((12, 19), 57),
        ((1, 57), 57),
        ((7, 123_456_789), 1_000_000_000),
        ((-1, -5), 10),
        ((2, 1), 3),
    ] {
        let text = percent(total - data.1, total);
        assert_eq!(thread_msg(data, total, &text), thread_msg_formatted(data, total));
    }
}

#[test]
fn thread_msg_wide_values_are_not_cut() {
    let msg = thread_msg((i32::MIN, i32::MIN), i32::MAX, "33.333336");
    assert_eq!(
        msg,
        format!(
            "thread {r}-2147483648 {w}{{ done: {y}4294967295{w}, left: {y}-2147483648{w}, percent: {y}33.333336% {w}done }}",
            w = WHITE,
            y = YELLOW,
            r = RED
        )
    );
}

fn status_msg_formatted(done: i32, total: i32, ts: u64, to: u64) -> String {
    let a = "samples done / total:   ";
    let b = "percentage done:        ";
    let c = "time elapsed:           ";
    let d = "left / maximum runtime: ";
    format!(
        "{}{y}{} {w}/{y} {}{w}\n{}{y}{}%{w}\n{}{y}{}s{w}\n{}{y}{}s {w}/{y} {}s{w}\n",
        a,
        done,
        total,
        b,
        (done as f32 / total as f32) * 100f32,
        c,
        ts,
        d,
        to - ts,
        to,
        w = WHITE,
        y = YELLOW
    )
}

#[test]
fn status_msg_exact() {
    assert_eq!(
        status_msg(64, 99, "64.64646", 12, 60),
        "samples done / total:   \x1B[33m64 \x1B[0m/\x1B[33m 99\x1B[0m\n\
         percentage done:        \x1B[33m64.64646%\x1B[0m\n\
         time elapsed:           \x1B[33m12s\x1B[0m\n\
         left / maximum runtime: \x1B[33m48s \x1B[0m/\x1B[33m 60s\x1B[0m\n"
    );
}

#[test]
fn status_msg_matches_format() {
    for (done, total, ts, to) in [
        (0, 400, 0, u64::MAX),
        (64, 99, 12, 60),
        (400, 400, 60, 60),
        (-7, 13, 1, 18_446_744_073_709_551_615),
        (i32::MAX, i32::MIN, 1234567890123, 9876543210987),
    ] {
        let text = percent(done, total);
        assert_eq!(
            status_msg(done as i64, total, &text, ts, to),
            status_msg_formatted(done, total, ts, to)
        );
    }
}

fn static_msg_formatted(
    width: u64,
    height: u64,
    iterations: i32,
    sample_count: i32,
    c1: (f64, f64),
    c2: (f64, f64),
    filename: &str,
) -> String {
    let w = format!("width: {y}{0}{w}", width, w = WHITE, y = YELLOW);
    let i = format!("iterations: {y}{0}{w}", iterations, w = WHITE, y = YELLOW);
    let mut w_spaces = 0;
    let mut i_spaces = 0;
    let d = (w.len() as i64 - i.len() as i64).abs();
    match w.len() > i.len() {
        true => i_spaces = d,
        false => w_spaces = d,
    }
    format!(
        "{}\n{}\n{}\n{}\n{}",
        format!(
            "{w}{tab:>width$}{h}",
            w = w,
            h = format!("height: {y}{0}{w}", height, w = WHITE, y = YELLOW),
            tab = "\t",
            width = w_spaces as usize
        ),
        format!(
            "{i}{tab:>width$}{s}",
            i = i,
            s = format!("samples: {y}{0}{w}", sample_count, w = WHITE, y = YELLOW),
            tab = "\t",
            width = i_spaces as usize
        ),
        format!("complex1: {{ r: {y}{}{w}, i: {y}{} {w}}}", c1.0, c1.1, w = WHITE, y = YELLOW),
        format!("complex2: {{ r: {y}{}{w}, i: {y}{} {w}}}", c2.0, c2.1, w = WHITE, y = YELLOW),
        format!("filename: {b}{}{w}", filename, w = WHITE, b = BLUE),
    )
}

#[test]
fn static_msg_exact() {
    let msg = static_msg(400, 300, 10, 400, ("-2", "-1.5"), ("2", "1.5"), "birb_HONK.birb");
    assert_eq!(
        msg,
        "width: \x1B[33m400\x1B[0m   \theight: \x1B[33m300\x1B[0m\n\
         iterations: \x1B[33m10\x1B[0m\tsamples: \x1B[33m400\x1B[0m\n\
         complex1: { r: \x1B[33m-2\x1B[0m, i: \x1B[33m-1.5 \x1B[0m}\n\
         complex2: { r: \x1B[33m2\x1B[0m, i: \x1B[33m1.5 \x1B[0m}\n\
         filename: \x1B[34mbirb_HONK.birb\x1B[0m"
    );
}

#[test]
fn static_msg_matches_format() {
    for (width, height, iterations, samples, c1, c2, name) in [
        (400u64, 400u64, 10, 400, (-2.0, -2.0), (2.0, 2.0), "birb_ABCD.birb"),
        (1, 2, 3, 4, (0.25, -0.125), (1e-7, 3.5e10), "x"),
        (u64::MAX, 0, i32::MIN, i32::MAX, (42.0, 42.0), (42.0, 42.0), ""),
        (1_000_000, 7, 100, -5, (-0.75, 0.1), (0.3, 0.6), "out put.birb"),
        (12345, 1, 1, 1, (1.0, 2.0), (3.0, 4.0), "é.birb"),
        (123456, 1, 1, 1, (1.0, 2.0), (3.0, 4.0), "a"),
        (1234567, 1, -1, 1, (1.0, 2.0), (3.0, 4.0), "a"),
    ] {
        let c1_text = (format!("{}", c1.0), format!("{}", c1.1));
        let c2_text = (format!("{}", c2.0), format!("{}", c2.1));
        assert_eq!(
            static_msg(
                width,
                height,
                iterations,
                samples,
                (&c1_text.0, &c1_text.1),
                (&c2_text.0, &c2_text.1),
                name
            ),
            static_msg_formatted(width, height, iterations, samples, c1, c2, name)
        );
    }
}
