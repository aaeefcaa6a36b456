use vstd::prelude::*;
use vstd::string::*;

verus! {

/// The character of a decimal digit `d < 10`.
pub open spec fn digit_char(d: nat) -> char {
    if d == 0 { '0' }
    else if d == 1 { '1' }
    else if d == 2 { '2' }
    else if d == 3 { '3' }
    else if d == 4 { '4' }
    else if d == 5 { '5' }
    else if d == 6 { '6' }
    else if d == 7 { '7' }
    else if d == 8 { '8' }
    else { '9' }
}

/// The decimal representation of `n`, most significant digit first, without
/// leading zeros (`0` is written `"0"`).
pub open spec fn decimal(n: nat) -> Seq<char>
    decreases n,
{
    if n < 10 {
        seq![digit_char(n)]
    } else {
        decimal(n / 10).push(digit_char(n % 10))
    }
}

fn digit_str(d: usize) -> (r: &'static str)
    requires
        d < 10,
    ensures
        r@ == seq![digit_char(d as nat)],
{
    proof {
        reveal_strlit("0");
        reveal_strlit("1");
        reveal_strlit("2");
        reveal_strlit("3");
        reveal_strlit("4");
        reveal_strlit("5");
        reveal_strlit("6");
        reveal_strlit("7");
        reveal_strlit("8");
        reveal_strlit("9");
    }
    if d == 0 { "0" }
    else if d == 1 { "1" }
    else if d == 2 { "2" }
    else if d == 3 { "3" }
    else if d == 4 { "4" }
    else if d == 5 { "5" }
    else if d == 6 { "6" }
    else if d == 7 { "7" }
    else if d == 8 { "8" }
    else { "9" }
}

/// Writes `n` in decimal.
pub fn to_decimal(n: usize) -> (r: String)
    ensures
        r@ == decimal(n as nat),
    decreases n,
{
    if n < 10 {
        String::from_str(digit_str(n))
    } else {
        let mut s = to_decimal(n / 10);
        s.append(digit_str(n % 10));
        s
    }
}


/// An ASCII letter or digit: the only characters allowed in an interface
/// name that is handed to the device tool.
pub open spec fn is_ascii_alphanumeric(c: char) -> bool {
    ('0' <= c && c <= '9') || ('a' <= c && c <= 'z') || ('A' <= c && c <= 'Z')
}

/// Every character of the interface name is an ASCII letter or digit, so the
/// name cannot carry options or shell syntax into the device tool.
pub open spec fn is_safe_interface_name(name: Seq<char>) -> bool {
    forall|i: int| 0 <= i < name.len() ==> is_ascii_alphanumeric(#[trigger] name[i])
}

/// Checks an interface name before it is used as a command argument.
pub fn interface_name_is_safe(name: &str) -> (r: bool)
    ensures
        r == is_safe_interface_name(name@),
{
    let mut ok = true;
    for c in it: name.chars()
        invariant
            it.seq() == name@,
            ok == (forall|j: int| 0 <= j < it.index() ==> is_ascii_alphanumeric(#[trigger] name@[j])),
    {
        let good = ('0' <= c && c <= '9') || ('a' <= c && c <= 'z') || ('A' <= c && c <= 'Z');
        ok = ok && good;
    }
    ok
}

/// Hardware queue counts of one interface; a count left out is not changed.
#[derive(Clone, Copy, Debug, PartialEq, Eq, Default)]
pub struct NetworkQueues {
    pub transmit: Option<usize>,
    pub receive: Option<usize>,
    pub combined: Option<usize>,
}

/// `[label, n]` when the count is set, nothing otherwise.
pub open spec fn count_args(label: Seq<char>, count: Option<usize>) -> Seq<Seq<char>> {
    match count {
        Some(n) => seq![label, decimal(n as nat)],
        None => Seq::empty(),
    }
}

/// The queue arguments of the device tool: `tx`, `rx` and `combined`, each
/// followed by its count, in that order, each only when set.
pub open spec fn queue_args(q: NetworkQueues) -> Seq<Seq<char>> {
    count_args(seq!['t', 'x'], q.transmit)
        + count_args(seq!['r', 'x'], q.receive)
        + count_args(seq!['c', 'o', 'm', 'b', 'i', 'n', 'e', 'd'], q.combined)
}

/// The words joined by single spaces.
pub open spec fn join_words(words: Seq<Seq<char>>) -> Seq<char>
    decreases words.len(),
{
    if words.len() == 0 {
        Seq::empty()
    } else if words.len() == 1 {
        words[0]
    } else {
        join_words(words.drop_last()) + seq![' '] + words.last()
    }
}

/// The whole argument list of the device tool for interface `nic`:
/// `-L <nic>` and then the queue arguments.
pub open spec fn queue_command(nic: Seq<char>, q: NetworkQueues) -> Seq<Seq<char>> {
    seq![seq!['-', 'L'], nic] + queue_args(q)
}

/// Why a queue command was not built.
#[derive(Clone, Copy, Debug, PartialEq, Eq)]
pub enum QueueError {
    /// The interface name holds a character that is not an ASCII letter or digit.
    UnsafeInterfaceName,
}

fn push_count(r: &mut Vec<String>, label: &str, count: Option<usize>)
    ensures
        final(r).deep_view() == old(r).deep_view() + count_args(label@, count),
{
    if let Some(n) = count {
        r.push(String::from_str(label));
        r.push(to_decimal(n));
    }
    proof {
        assert(final(r).deep_view() =~= old(r).deep_view() + count_args(label@, count));
    }
}

impl NetworkQueues {
    /// The arguments that set these queue counts.
    pub fn args(&self) -> (r: Vec<String>)
        ensures
            r.deep_view() == queue_args(*self),
    {
        let mut r: Vec<String> = Vec::new();
        proof {
            reveal_strlit("tx");
            reveal_strlit("rx");
            reveal_strlit("combined");
            assert("tx"@ =~= seq!['t', 'x']);
            assert("rx"@ =~= seq!['r', 'x']);
            assert("combined"@ =~= seq!['c', 'o', 'm', 'b', 'i', 'n', 'e', 'd']);
        }
        push_count(&mut r, "tx", self.transmit);
        push_count(&mut r, "rx", self.receive);
        push_count(&mut r, "combined", self.combined);
        proof {
            assert(r.deep_view() =~= queue_args(*self));
        }
        r
    }

    /// The queue arguments joined by spaces, for display.
    pub fn to_string(&self) -> (r: String)
        ensures
            r@ == join_words(queue_args(*self)),
    {
        let words = self.args();
        let mut r = String::new();
        let mut i: usize = 0;
        proof {
            reveal_strlit(" ");
            assert(" "@ =~= seq![' ']);
        }
        while i < words.len()
            invariant
                0 <= i <= words.len(),
                words.deep_view() == queue_args(*self),
                " "@ == seq![' '],
                r@ == join_words(words.deep_view().subrange(0, i as int)),
            decreases words.len() - i,
        {
            let ghost before = r@;
            if i > 0 {
                r.append(" ");
            }
            r.append(words[i].as_str());
            proof {
                let w = words.deep_view();
                let next = w.subrange(0, i + 1);
                assert(next.drop_last() =~= w.subrange(0, i as int));
                assert(next.last() == words[i as int]@);
                if i == 0 {
                    assert(before =~= Seq::<char>::empty());
                    assert(r@ =~= next[0]);
                } else {
                    assert(r@ =~= before + seq![' '] + next.last());
                }
            }
            i = i + 1;
        }
        proof {
            assert(words.deep_view().subrange(0, i as int) =~= words.deep_view());
        }
        r
    }

    /// The argument list of the device tool that sets these queue counts on
    /// interface `nic`. A name that is not all ASCII letters and digits is
    /// refused, so no command is built from it.
    pub fn command(&self, nic: &str) -> (r: Result<Vec<String>, QueueError>)
        ensures
            is_safe_interface_name(nic@) ==> (r matches Ok(v) && v.deep_view() == queue_command(nic@, *self)),
            !is_safe_interface_name(nic@) ==> r == Err::<Vec<String>, QueueError>(QueueError::UnsafeInterfaceName),
    {
        if !interface_name_is_safe(nic) {
            return Err(QueueError::UnsafeInterfaceName);
        }
        proof {
            reveal_strlit("-L");
            assert("-L"@ =~= seq!['-', 'L']);
        }
        let mut r: Vec<String> = Vec::new();
        r.push(String::from_str("-L"));
        r.push(String::from_str(nic));
        let mut rest = self.args();
        let ghost head = r@;
        let ghost tail = rest@;
        let ghost tailv = rest.deep_view();
        r.append(&mut rest);
        proof {
            assert(r@ =~= head + tail);
            assert(tailv =~= tail.map_values(|x: String| x@));
            assert(r.deep_view() =~= seq![seq!['-', 'L'], nic@] + tailv);
            assert(r.deep_view() =~= queue_command(nic@, *self));
        }
        Ok(r)
    }
}

/// With only the combined count set to `n`, the queue arguments are exactly
/// `combined n`; with all three set to `a`, `b` and `c`, they are exactly
/// `tx a rx b combined c`, whatever order the counts were given in.
pub proof fn lemma_queue_args_order(n: usize, a: usize, b: usize, c: usize)
    ensures
        queue_args(NetworkQueues { transmit: None, receive: None, combined: Some(n) })
            == seq![seq!['c', 'o', 'm', 'b', 'i', 'n', 'e', 'd'], decimal(n as nat)],
        queue_args(NetworkQueues { transmit: Some(a), receive: Some(b), combined: Some(c) }) == seq![
            seq!['t', 'x'],
            decimal(a as nat),
            seq!['r', 'x'],
            decimal(b as nat),
            seq!['c', 'o', 'm', 'b', 'i', 'n', 'e', 'd'],
            decimal(c as nat),
        ],
{
    assert(queue_args(NetworkQueues { transmit: None, receive: None, combined: Some(n) })
        =~= seq![seq!['c', 'o', 'm', 'b', 'i', 'n', 'e', 'd'], decimal(n as nat)]);
    assert(queue_args(NetworkQueues { transmit: Some(a), receive: Some(b), combined: Some(c) }) =~= seq![
        seq!['t', 'x'],
        decimal(a as nat),
        seq!['r', 'x'],
        decimal(b as nat),
        seq!['c', 'o', 'm', 'b', 'i', 'n', 'e', 'd'],
        decimal(c as nat),
    ]);
}

} // verus!
