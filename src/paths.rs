//! Where a program's plugin configurations live.
use vstd::prelude::*;
use crate::text::push_char;

verus! {

pub open spec fn upper_hex_char(d: nat) -> char {
    if d == 0 { '0' }
    else if d == 1 { '1' }
    else if d == 2 { '2' }
    else if d == 3 { '3' }
    else if d == 4 { '4' }
    else if d == 5 { '5' }
    else if d == 6 { '6' }
    else if d == 7 { '7' }
    else if d == 8 { '8' }
    else if d == 9 { '9' }
    else if d == 10 { 'A' }
    else if d == 11 { 'B' }
    else if d == 12 { 'C' }
    else if d == 13 { 'D' }
    else if d == 14 { 'E' }
    else { 'F' }
}

/// The last `k` upper-case hexadecimal digits of `n`, zero-padded.
pub open spec fn fixed_hex(n: nat, k: nat) -> Seq<char>
    decreases k,
{
    if k == 0 {
        Seq::empty()
    } else {
        fixed_hex(n / 16, (k - 1) as nat).push(upper_hex_char(n % 16))
    }
}

fn upper_hex_chars() -> (r: [char; 16])
    ensures
        forall|d: int| 0 <= d < 16 ==> #[trigger] r@[d] == upper_hex_char(d as nat),
{
    ['0', '1', '2', '3', '4', '5', '6', '7', '8', '9', 'A', 'B', 'C', 'D', 'E', 'F']
}

fn push_fixed_hex(out: &mut String, n: u64, k: usize)
    requires
        k <= 16,
    ensures
        final(out)@ == old(out)@ + fixed_hex(n as nat, k as nat),
    decreases k,
{
    if k == 0 {
        assert(final(out)@ =~= old(out)@ + fixed_hex(n as nat, 0));
        return;
    }
    push_fixed_hex(out, n / 16, k - 1);
    let d = upper_hex_chars();
    push_char(out, d[(n % 16) as usize]);
    assert(final(out)@ =~= old(out)@ + fixed_hex(n as nat, k as nat));
}

/// The directory that holds the configurations of the plugins of the
/// program `program_id`: `sd:/helios/` and the id in sixteen upper-case
/// hexadecimal digits.
pub fn config_dir(program_id: u64) -> (r: String)
    ensures
        r@ == "sd:/helios/"@ + fixed_hex(program_id as nat, 16),
{
    let mut out = "sd:/helios/".to_owned();
    push_fixed_hex(&mut out, program_id, 16);
    out
}

} // verus!
