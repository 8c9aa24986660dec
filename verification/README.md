# pulse

A terminal process monitor. The library in `src/` holds its decisions, proved
with Verus: which processes are monitored (`select`), which rows the table
shows and in what order (`table`), how table lines and the single-process
status line are laid out (`render`, `status`), how a process is found by PID
or by name, and a process's CPU and start times (`procs`, the latter through
chrono's local time), and the text helpers they share (`text`, `lex`).

`app/` is the program around it: command-line parsing, reading processes
through `psutil`, memory totals through `sys-info`, the terminal through
`termion` (raw mode, cursor position), process owners for `--current-user`, and the floating-point measurements, which the library receives as
ordering keys and formatted texts.
