use pulse::status::{compose_status_line, status_line};

#[test]
fn compose_status_line_layout() {
    let s = compose_status_line("<G>", "<C>", "<R>", "<B>", "<Y>", 42, "cat", "1.50", "3.25", "7.00");
    assert_eq!(s, "<G><C>PID: 42 <R>NAME: cat <B>CPU 1.50% <R>MEM: 3.25Mb <Y>CPU Total: 7.00 <R>");
}

#[test]
fn status_line_uses_termion_sequences() {
    let s = status_line(5, 42, "cat", "1.50", "3.25", "7.00");
    let colored = "\x1b[5;1H\x1b[2KPID: 42 \x1b[39mNAME: cat \x1b[38;5;4mCPU 1.50% \x1b[39mMEM: 3.25Mb \x1b[38;5;3mCPU Total: 7.00 \x1b[39m";
    let plain = "\x1b[5;1H\x1b[2KPID: 42 \x1b[39mNAME: cat CPU 1.50% \x1b[39mMEM: 3.25Mb CPU Total: 7.00 \x1b[39m";
    assert!(s == colored || s == plain, "{:?}", s);
}
