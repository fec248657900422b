//! Subjects: dot-delimited names that route messages on the bus.

use vstd::prelude::*;

verus! {

/// Where the trailing segment of `s` begins: just behind its last dot, or at
/// the front where it has none.
pub open spec fn trailing_start(s: Seq<char>) -> nat
    decreases s.len(),
{
    if s.len() == 0 {
        0
    } else if s.last() == '.' {
        s.len()
    } else {
        trailing_start(s.drop_last())
    }
}

/// The last dot-separated segment of `s`.
pub open spec fn trailing_segment(s: Seq<char>) -> Seq<char> {
    s.subrange(trailing_start(s) as int, s.len() as int)
}

/// The subject on which the worker named `id` is told to stop.
pub open spec fn stop_subject_of(id: Seq<char>) -> Seq<char> {
    "supervisor.kill_client."@ + id
}

/// The trailing segment holds no dot, and a dot stands right before it unless
/// it starts the subject.
pub proof fn lemma_trailing_start(s: Seq<char>)
    ensures
        trailing_start(s) <= s.len(),
        trailing_start(s) > 0 ==> s[trailing_start(s) - 1] == '.',
        forall|i: int| trailing_start(s) <= i < s.len() ==> s[i] != '.',
    decreases s.len(),
{
    if s.len() > 0 && s.last() != '.' {
        let front = s.drop_last();
        lemma_trailing_start(front);
        assert forall|i: int| trailing_start(s) <= i < s.len() implies s[i] != '.' by {
            if i < front.len() {
                assert(front[i] == s[i]);
            }
        }
    }
}

/// A dot at `k` with none behind it fixes the start of the trailing segment.
proof fn lemma_trailing_start_at(s: Seq<char>, k: int)
    requires
        0 <= k <= s.len(),
        k > 0 ==> s[k - 1] == '.',
        forall|i: int| k <= i < s.len() ==> s[i] != '.',
    ensures
        trailing_start(s) == k,
    decreases s.len(),
{
    if s.len() > 0 && s.last() != '.' {
        lemma_trailing_start_at(s.drop_last(), k);
    }
}

/// The subject of the heartbeat.
pub fn tick_subject() -> (subject: String)
    ensures
        subject@ == "tick"@,
{
    String::from_str("tick")
}

/// The subject on which the supervisor is asked to start a log client.
pub fn start_subject() -> (subject: String)
    ensures
        subject@ == "command.start_log"@,
{
    String::from_str("command.start_log")
}

/// The wildcard subject on which the supervisor is asked to stop a worker.
pub fn kill_subject() -> (subject: String)
    ensures
        subject@ == "command.kill_client.*"@,
{
    String::from_str("command.kill_client.*")
}

/// The worker id that a subject carries: its trailing segment.
pub fn worker_id(subject: &str) -> (id: String)
    ensures
        id@ == trailing_segment(subject@),
{
    let n: usize = subject.unicode_len();
    let mut i: usize = n;
    while i > 0 && subject.get_char(i - 1) != '.'
        invariant
            i <= n,
            n == subject@.len(),
            forall|j: int| i <= j < n ==> subject@[j] != '.',
        decreases i,
    {
        i = i - 1;
    }
    proof {
        lemma_trailing_start_at(subject@, i as int);
    }
    String::from_str(subject.substring_char(i, n))
}

/// The decimal digit of `d`.
pub open spec fn digit(d: nat) -> char {
    if d == 0 {
        '0'
    } else if d == 1 {
        '1'
    } else if d == 2 {
        '2'
    } else if d == 3 {
        '3'
    } else if d == 4 {
        '4'
    } else if d == 5 {
        '5'
    } else if d == 6 {
        '6'
    } else if d == 7 {
        '7'
    } else if d == 8 {
        '8'
    } else {
        '9'
    }
}

/// `n` in decimal, without leading zeros.
pub open spec fn decimal_of(n: nat) -> Seq<char>
    decreases n,
{
    if n < 10 {
        seq![digit(n)]
    } else {
        decimal_of(n / 10).push(digit(n % 10))
    }
}

fn digit_text(d: usize) -> (text: &'static str)
    requires
        d < 10,
    ensures
        text@ == seq![digit(d as nat)],
{
    proof {
        reveal_strlit("0");
        reveal_strlit("1");
        reveal_strlit("2");
        reveal_strlit("3");
        reveal_strlit("4");
        reveal_strlit("5");
        reveal_strlit("6");
        reveal_strlit("7");
        reveal_strlit("8");
        reveal_strlit("9");
    }
    let text = if d == 0 {
        "0"
    } else if d == 1 {
        "1"
    } else if d == 2 {
        "2"
    } else if d == 3 {
        "3"
    } else if d == 4 {
        "4"
    } else if d == 5 {
        "5"
    } else if d == 6 {
        "6"
    } else if d == 7 {
        "7"
    } else if d == 8 {
        "8"
    } else {
        "9"
    };
    assert(text@ =~= seq![digit(d as nat)]);
    text
}

/// The id of the worker with handle `n`: the handle in decimal.
pub fn decimal(n: usize) -> (text: String)
    ensures
        text@ == decimal_of(n as nat),
    decreases n,
{
    if n < 10 {
        String::from_str(digit_text(n))
    } else {
        let front = decimal(n / 10);
        let last = digit_text(n % 10);
        assert(front@ + last@ =~= decimal_of((n / 10) as nat).push(digit((n % 10) as nat)));
        front.concat(last)
    }
}

/// The subject of the directed stop message for the worker named `id`.
pub fn stop_subject(id: &str) -> (subject: String)
    ensures
        subject@ == stop_subject_of(id@),
{
    String::from_str("supervisor.kill_client.").concat(id)
}

} // verus!
