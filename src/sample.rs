use vstd::prelude::*;

verus! {

/// The most recently published tick: its time, readings, baselines, net
/// power and the ledger balance right after the tick's credit.
#[derive(Clone, Copy, Debug, PartialEq, Eq, Structural)]
pub struct Sample {
    /// Wall-clock time of the tick, in milliseconds since the Unix epoch.
    pub ts_ms: u64,
    pub gpu_mw: u32,
    pub cpu_mw: u32,
    pub idle_gpu_mw: u32,
    pub idle_cpu_mw: u32,
    pub net_mw: u64,
    pub bucket_uj: u64,
}

impl Sample {
    pub open spec fn zero_spec() -> Sample {
        Sample { ts_ms: 0, gpu_mw: 0, cpu_mw: 0, idle_gpu_mw: 0, idle_cpu_mw: 0, net_mw: 0, bucket_uj: 0 }
    }

    /// The sample published before the first tick: all zero.
    pub fn zero() -> (r: Sample)
        ensures
            r == Sample::zero_spec(),
    {
        Sample { ts_ms: 0, gpu_mw: 0, cpu_mw: 0, idle_gpu_mw: 0, idle_cpu_mw: 0, net_mw: 0, bucket_uj: 0 }
    }
}

/// A published sample together with its integrity token.
#[derive(Clone, Debug)]
pub struct SampleReport {
    pub sample: Sample,
    /// Lowercase hexadecimal BLAKE3 digest of `integrity_text(ts_ms, bucket_uj)`.
    pub hash: String,
}

/// ASCII decimal digits of a natural number, most significant first.
pub open spec fn decimal(n: nat) -> Seq<u8>
    decreases n,
{
    if n < 10 {
        seq![(48 + n) as u8]
    } else {
        decimal(n / 10).push((48 + n % 10) as u8)
    }
}

/// The last `width` decimal digits of a natural number, zero-padded.
pub open spec fn padded(n: nat, width: nat) -> Seq<u8>
    decreases width,
{
    if width == 0 {
        seq![]
    } else {
        padded(n / 10, (width - 1) as nat).push((48 + n % 10) as u8)
    }
}

/// A fixed-point figure with `width` decimals, from a count of `10^-width` units.
pub open spec fn fixed_point(units: nat, width: nat, per_unit: nat) -> Seq<u8> {
    decimal(units / per_unit) + seq![46u8] + padded(units % per_unit, width)
}

/// The text that the integrity token digests: the time in seconds with three
/// decimals, a colon, the balance in joules with six decimals (as served,
/// `format!("{:.3}:{:.6}", ts, bucket_j)`).
pub open spec fn integrity_text(ts_ms: u64, bucket_uj: u64) -> Seq<u8> {
    fixed_point(ts_ms as nat, 3, 1000) + seq![58u8] + fixed_point(bucket_uj as nat, 6, 1_000_000)
}

/// The BLAKE3 digest of a byte string, in lowercase hexadecimal.
pub uninterp spec fn blake3_hex_of(data: Seq<u8>) -> Seq<char>;

/// A lowercase hexadecimal digit.
pub open spec fn is_lower_hex(c: char) -> bool {
    ('0' <= c && c <= '9') || ('a' <= c && c <= 'f')
}

/// Relies on `blake3::hash` and `Hash::to_hex`: the 32-byte digest written as
/// 64 lowercase hexadecimal digits.
#[verifier::external_body]
fn blake3_hex(data: &[u8]) -> (r: String)
    ensures
        r@ == blake3_hex_of(data@),
        r@.len() == 64,
        forall|i: int| 0 <= i < r@.len() ==> is_lower_hex(#[trigger] r@[i]),
{
    blake3::hash(data).to_hex().to_string()
}

/// Appends the decimal digits of `n`.
fn push_decimal(out: &mut Vec<u8>, n: u64)
    ensures
        final(out)@ == old(out)@ + decimal(n as nat),
    decreases n,
{
    if n >= 10 {
        push_decimal(out, n / 10);
    }
    out.push(48u8 + (n % 10) as u8);
    assert(out@ =~= old(out)@ + decimal(n as nat));
}

/// Appends the last `width` decimal digits of `n`, zero-padded.
fn push_padded(out: &mut Vec<u8>, n: u64, width: u64)
    ensures
        final(out)@ == old(out)@ + padded(n as nat, width as nat),
    decreases width,
{
    if width > 0 {
        push_padded(out, n / 10, width - 1);
        out.push(48u8 + (n % 10) as u8);
    }
    assert(out@ =~= old(out)@ + padded(n as nat, width as nat));
}

/// Appends `units` as a fixed-point figure with `width` decimals.
fn push_fixed_point(out: &mut Vec<u8>, units: u64, width: u64, per_unit: u64)
    requires
        per_unit > 0,
    ensures
        final(out)@ == old(out)@ + fixed_point(units as nat, width as nat, per_unit as nat),
{
    push_decimal(out, units / per_unit);
    out.push(46u8);
    push_padded(out, units % per_unit, width);
    assert(out@ =~= old(out)@ + fixed_point(units as nat, width as nat, per_unit as nat));
}

/// The text that the integrity token digests, as bytes.
pub fn integrity_message(ts_ms: u64, bucket_uj: u64) -> (r: Vec<u8>)
    ensures
        r@ == integrity_text(ts_ms, bucket_uj),
{
    let mut out: Vec<u8> = Vec::new();
    push_fixed_point(&mut out, ts_ms, 3, 1000);
    out.push(58u8);
    push_fixed_point(&mut out, bucket_uj, 6, 1_000_000);
    assert(out@ =~= integrity_text(ts_ms, bucket_uj));
    out
}

/// The sample as it is served: unchanged, with the digest of its time and balance.
pub fn report(s: &Sample) -> (r: SampleReport)
    ensures
        r.sample == *s,
        r.hash@ == blake3_hex_of(integrity_text(s.ts_ms, s.bucket_uj)),
        r.hash@.len() == 64,
{
    let msg = integrity_message(s.ts_ms, s.bucket_uj);
    let hash = blake3_hex(msg.as_slice());
    SampleReport { sample: *s, hash }
}

} // verus!
