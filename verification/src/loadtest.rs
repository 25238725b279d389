//! The load generator's choices: which key, which operation and which report comes next.
use vstd::prelude::*;

verus! {

/// A kind of operation whose latency is measured.
#[derive(Clone, Copy, Debug, PartialEq, Eq, Hash, Structural)]
pub enum OpKind {
    Get,
    Put,
    Delete,
    Merge,
}

/// The name of a kind in reports.
pub open spec fn label_of(kind: OpKind) -> Seq<char> {
    match kind {
        OpKind::Get => "get"@,
        OpKind::Put => "put"@,
        OpKind::Delete => "delete"@,
        OpKind::Merge => "merge"@,
    }
}

impl OpKind {
    pub fn label(self) -> (label: &'static str)
        ensures
            label@ == label_of(self),
    {
        match self {
            OpKind::Get => "get",
            OpKind::Put => "put",
            OpKind::Delete => "delete",
            OpKind::Merge => "merge",
        }
    }

    /// All kinds, in the order of reports.
    pub fn all() -> (kinds: [OpKind; 4])
        ensures
            kinds@ == seq![OpKind::Get, OpKind::Put, OpKind::Delete, OpKind::Merge],
    {
        let kinds: [OpKind; 4] = [OpKind::Get, OpKind::Put, OpKind::Delete, OpKind::Merge];
        assert(kinds@ =~= seq![OpKind::Get, OpKind::Put, OpKind::Delete, OpKind::Merge]);
        kinds
    }
}

/// A small pseudo-random generator (xorshift with 64 bits of state). The state is never zero.
#[derive(Debug)]
pub struct Rng(u64);

impl View for Rng {
    type V = u64;

    closed spec fn view(&self) -> u64 {
        self.0
    }
}

/// The number, and state, after `x`.
pub open spec fn xorshift(x: u64) -> u64 {
    let a = x ^ (x << 13u64);
    let b = a ^ (a >> 7u64);
    b ^ (b << 17u64)
}

impl Rng {
    pub fn new(seed: u64) -> (rng: Rng)
        ensures
            rng@ == if seed == 0 {
                1
            } else {
                seed
            },
    {
        Rng(if seed == 0 {
            1
        } else {
            seed
        })
    }

    pub fn next_u64(&mut self) -> (x: u64)
        ensures
            x == xorshift(old(self)@),
            final(self)@ == x,
    {
        let mut x = self.0;
        x = x ^ (x << 13u64);
        x = x ^ (x >> 7u64);
        x = x ^ (x << 17u64);
        self.0 = x;
        x
    }
}

/// The generator never gets stuck at zero.
pub proof fn law_rng_state_is_never_zero(x: u64)
    requires
        x != 0,
    ensures
        xorshift(x) != 0,
{
    assert(x != 0 ==> x ^ (x << 13u64) != 0) by (bit_vector);
    let a = x ^ (x << 13u64);
    assert(a != 0 ==> a ^ (a >> 7u64) != 0) by (bit_vector);
    let b = a ^ (a >> 7u64);
    assert(b != 0 ==> b ^ (b << 17u64) != 0) by (bit_vector);
}

/// Which operation a number below the sum of all weights stands for.
pub open spec fn operation_for(pick: u64, read_weight: u64, write_weight: u64) -> OpKind {
    if pick < read_weight {
        OpKind::Get
    } else if pick < read_weight + write_weight {
        OpKind::Put
    } else {
        OpKind::Delete
    }
}

/// Chooses an operation by weight.
pub fn choose_operation(pick: u64, read_weight: u32, write_weight: u32) -> (kind: OpKind)
    ensures
        kind == operation_for(pick, read_weight as u64, write_weight as u64),
{
    let read_weight = read_weight as u64;
    if pick < read_weight {
        OpKind::Get
    } else if pick < read_weight + write_weight as u64 {
        OpKind::Put
    } else {
        OpKind::Delete
    }
}

/// How many decimal digits `n` has.
pub open spec fn digit_count(n: nat) -> nat
    decreases n,
{
    if n < 10 {
        1
    } else {
        1 + digit_count(n / 10)
    }
}

/// The low `width` decimal digits of `n` as ASCII, most significant first.
pub open spec fn ascii_digits(n: nat, width: nat) -> Seq<u8>
    decreases width,
{
    if width == 0 {
        Seq::empty()
    } else {
        ascii_digits(n / 10, (width - 1) as nat).push((48 + n % 10) as u8)
    }
}

/// The bytes `key-` and then `k` in decimal, with zeros in front up to twelve digits.
pub open spec fn key_of(k: u64) -> Seq<u8> {
    let width = if digit_count(k as nat) > 12 {
        digit_count(k as nat)
    } else {
        12
    };
    seq![107u8, 101u8, 121u8, 45u8] + ascii_digits(k as nat, width)
}

fn count_digits(n: u64) -> (count: usize)
    ensures
        count == digit_count(n as nat),
        count <= 20,
{
    let mut rest = n;
    let mut count: usize = 1;
    proof {
        lemma_digit_count(n as nat);
    }
    while rest >= 10
        invariant
            count + digit_count(rest as nat) == digit_count(n as nat) + 1,
            digit_count(n as nat) <= 20,
            count <= 20,
        decreases rest,
    {
        assert(digit_count((rest / 10) as nat) >= 1);
        rest = rest / 10;
        count += 1;
    }
    count
}

/// A 64-bit number has at most twenty digits.
proof fn lemma_digit_count(n: nat)
    requires
        n < 0x1_0000_0000_0000_0000,
    ensures
        digit_count(n) <= 20,
{
    reveal_with_fuel(digit_count, 21);
}

fn push_digits(buf: &mut Vec<u8>, n: u64, width: usize)
    ensures
        final(buf)@ == old(buf)@ + ascii_digits(n as nat, width as nat),
    decreases width,
{
    if width > 0 {
        push_digits(buf, n / 10, width - 1);
        buf.push(48 + (n % 10) as u8);
    }
    assert(buf@ =~= old(buf)@ + ascii_digits(n as nat, width as nat));
}

/// The key with number `k`.
pub fn key_bytes(k: u64) -> (key: Vec<u8>)
    ensures
        key@ == key_of(k),
{
    let count = count_digits(k);
    let width: usize = if count > 12 {
        count
    } else {
        12
    };
    let mut key: Vec<u8> = Vec::new();
    key.push(107);
    key.push(101);
    key.push(121);
    key.push(45);
    assert(key@ =~= seq![107u8, 101u8, 121u8, 45u8]);
    push_digits(&mut key, k, width);
    key
}

/// The latencies of one kind of operation among samples, in their order.
pub open spec fn latencies(samples: Seq<(OpKind, u64)>, kind: OpKind) -> Seq<u64>
    decreases samples.len(),
{
    if samples.len() == 0 {
        Seq::empty()
    } else {
        let rest = latencies(samples.drop_last(), kind);
        if samples.last().0 == kind {
            rest.push(samples.last().1)
        } else {
            rest
        }
    }
}

/// Picks the latencies of one kind of operation out of samples.
pub fn latencies_of(samples: &[(OpKind, u64)], kind: OpKind) -> (picked: Vec<u64>)
    ensures
        picked@ == latencies(samples@, kind),
{
    let mut picked: Vec<u64> = Vec::new();
    let mut i: usize = 0;
    while i < samples.len()
        invariant
            i <= samples@.len(),
            picked@ == latencies(samples@.take(i as int), kind),
        decreases samples@.len() - i,
    {
        assert(samples@.take(i + 1).drop_last() =~= samples@.take(i as int));
        let (sampled, latency) = samples[i];
        if sampled == kind {
            picked.push(latency);
        }
        i += 1;
    }
    assert(samples@.take(i as int) =~= samples@);
    picked
}

/// How many nanoseconds a report loop sleeps before its next report, or `None` if the run is over:
/// the interval, which is a second at least, but not past the end of the run, and a millisecond at
/// least. Times are in nanoseconds since the run began.
pub fn pause_before_report(elapsed: u128, total_secs: u64, interval_secs: u64) -> (pause: Option<
    u128,
>)
    ensures
        ({
            let left = total_secs * 1_000_000_000 - elapsed;
            let interval = if interval_secs == 0 {
                1_000_000_000
            } else {
                interval_secs * 1_000_000_000
            };
            let rest = if left < 1_000_000 {
                1_000_000
            } else {
                left
            };
            &&& pause is None <==> left <= 0
            &&& pause is Some ==> pause->0 == if interval < rest {
                interval
            } else {
                rest
            }
        }),
{
    let total: u128 = total_secs as u128 * 1_000_000_000;
    if elapsed >= total {
        return None;
    }
    let left: u128 = total - elapsed;
    let rest: u128 = if left < 1_000_000 {
        1_000_000
    } else {
        left
    };
    let interval: u128 = if interval_secs == 0 {
        1_000_000_000
    } else {
        interval_secs as u128 * 1_000_000_000
    };
    if interval < rest {
        Some(interval)
    } else {
        Some(rest)
    }
}

/// Whether the warm-up has ended, and nothing is recorded yet. The time is in nanoseconds since the
/// run began.
pub fn ends_warmup(is_recording: bool, elapsed: u128, warmup_secs: u64) -> (ends: bool)
    ensures
        ends == (!is_recording && elapsed >= warmup_secs * 1_000_000_000),
{
    !is_recording && elapsed >= warmup_secs as u128 * 1_000_000_000
}

} // verus!
