//! Names of the files through which the server reaches its forks: the socket directory, the
//! sockets in it, and the shared-memory buffers.

use crate::text::decimal;
use crate::text::hex_digit;
use crate::text::hex_digits;
use crate::text::hex_u64_text;
use crate::text::u32_text;
use crate::text::usize_text;
use vstd::prelude::*;
use vstd::string::StringExecFns;

verus! {

/// `rand::random::<u64>()`: a random number from the thread's generator, of which nothing is
/// stated.
#[verifier::external_body]
fn random_u64() -> u64 {
    rand::random::<u64>()
}

/// The name of the socket directory for the number `v`: `vsm-` and `v` in sixteen hexadecimal
/// digits. Different numbers give different names.
pub fn socket_dir_name_for(v: u64) -> (name: String)
    ensures
        name@ == "vsm-"@ + hex_digits(v as nat, 16),
{
    let mut name = String::from_str("vsm-");
    let digits = hex_u64_text(v);
    name.append(digits.as_str());
    name
}

/// A fresh name for the directory that holds the sockets: the name for a random 64-bit number,
/// so that the sockets of two servers do not conflict.
pub fn socket_dir_name() -> (name: String)
    ensures
        exists|v: u64| name@ == "vsm-"@ + hex_digits(v as nat, 16),
{
    let v = random_u64();
    socket_dir_name_for(v)
}

/// The file name of socket `idx` in the socket directory: `sock-` and the index in decimal.
pub fn socket_file_name(idx: usize) -> (name: String)
    ensures
        name@ == "sock-"@ + decimal(idx as nat),
{
    let mut name = String::from_str("sock-");
    let digits = usize_text(idx);
    name.append(digits.as_str());
    name
}

/// The name of shared-memory buffer `buffer_id` of the process that `process_id` stands for:
/// `vfs-`, both numbers in decimal joined by `-`, and a terminating NUL, as `shm_open` takes it.
pub fn shared_memory_name(process_id: u32, buffer_id: u16) -> (name: String)
    ensures
        name@ == "vfs-"@ + decimal(process_id as nat) + "-"@ + decimal(buffer_id as nat) + "\0"@,
{
    let mut name = String::from_str("vfs-");
    let pid = u32_text(process_id);
    name.append(pid.as_str());
    name.append("-");
    let bid = u32_text(buffer_id as u32);
    name.append(bid.as_str());
    name.append("\0");
    name
}

/// Whether buffer number `buffer_id` can still be allocated: the counter of buffers stops short
/// of its largest value.
pub fn buffer_id_available(buffer_id: u16) -> (ok: bool)
    ensures
        ok == (buffer_id < u16::MAX),
{
    buffer_id != u16::MAX
}

/// A decimal numeral is never empty, and none of its characters is a `-`.
proof fn lemma_decimal_has_no_dash(n: nat)
    ensures
        decimal(n).len() >= 1,
        forall|i: int| 0 <= i < decimal(n).len() ==> #[trigger] decimal(n)[i] != '-',
    decreases n,
{
    if n >= 10 {
        lemma_decimal_has_no_dash(n / 10);
        assert forall|i: int| 0 <= i < decimal(n).len() implies #[trigger] decimal(n)[i] != '-' by {
            if i < decimal(n / 10).len() {
                assert(decimal(n)[i] == decimal(n / 10)[i]);
            }
        }
    }
}

/// Different decimal digits are different characters.
proof fn lemma_digit_injective(a: int, b: int)
    requires
        0 <= a < 10,
        0 <= b < 10,
        hex_digit(a) == hex_digit(b),
    ensures
        a == b,
{
    assert(hex_digit(a) as int == '0' as int + a);
    assert(hex_digit(b) as int == '0' as int + b);
}

/// Different numbers have different decimal numerals.
proof fn lemma_decimal_injective(n: nat, m: nat)
    requires
        decimal(n) == decimal(m),
    ensures
        n == m,
    decreases n,
{
    lemma_decimal_has_no_dash(n / 10);
    lemma_decimal_has_no_dash(m / 10);
    if n >= 10 && m >= 10 {
        assert(decimal(n) == decimal(n / 10).push(hex_digit((n % 10) as int)));
        assert(decimal(m) == decimal(m / 10).push(hex_digit((m % 10) as int)));
        assert(decimal(n / 10) =~= decimal(n).drop_last());
        assert(decimal(m / 10) =~= decimal(m).drop_last());
        lemma_decimal_injective(n / 10, m / 10);
        assert(decimal(n).last() == hex_digit((n % 10) as int));
        assert(decimal(m).last() == hex_digit((m % 10) as int));
        lemma_digit_injective((n % 10) as int, (m % 10) as int);
    } else if n < 10 && m < 10 {
        assert(decimal(n)[0] == hex_digit(n as int));
        assert(decimal(m)[0] == hex_digit(m as int));
        lemma_digit_injective(n as int, m as int);
    } else if n < 10 {
        assert(decimal(m) == decimal(m / 10).push(hex_digit((m % 10) as int)));
        assert(decimal(n).len() == 1);
    } else {
        assert(decimal(n) == decimal(n / 10).push(hex_digit((n % 10) as int)));
        assert(decimal(m).len() == 1);
    }
}

/// Two shared-memory buffers have the same name only when both their process and their buffer
/// numbers agree: buffers numbered differently within one process never share a name.
pub proof fn law_shared_memory_names_unique(p1: u32, b1: u16, p2: u32, b2: u16)
    requires
        p1 != p2 || b1 != b2,
    ensures
        "vfs-"@ + decimal(p1 as nat) + "-"@ + decimal(b1 as nat) + "\0"@ != "vfs-"@ + decimal(
            p2 as nat,
        ) + "-"@ + decimal(b2 as nat) + "\0"@,
{
    let (d1, e1, d2, e2) = (decimal(p1 as nat), decimal(b1 as nat), decimal(p2 as nat), decimal(
        b2 as nat,
    ));
    let x1 = "vfs-"@ + d1 + "-"@ + e1 + "\0"@;
    let x2 = "vfs-"@ + d2 + "-"@ + e2 + "\0"@;
    if x1 == x2 {
        reveal_strlit("vfs-");
        reveal_strlit("-");
        reveal_strlit("\0");
        lemma_decimal_has_no_dash(p1 as nat);
        lemma_decimal_has_no_dash(p2 as nat);
        let y1 = d1 + "-"@ + e1;
        let y2 = d2 + "-"@ + e2;
        assert(y1 =~= x1.subrange(4, x1.len() - 1));
        assert(y2 =~= x2.subrange(4, x2.len() - 1));
        if d1.len() < d2.len() {
            assert(y1[d1.len() as int] == '-');
            assert(y2[d1.len() as int] == d2[d1.len() as int]);
        } else if d2.len() < d1.len() {
            assert(y2[d2.len() as int] == '-');
            assert(y1[d2.len() as int] == d1[d2.len() as int]);
        } else {
            assert(d1 =~= y1.subrange(0, d1.len() as int));
            assert(d2 =~= y2.subrange(0, d2.len() as int));
            assert(e1 =~= y1.subrange(d1.len() as int + 1, y1.len() as int));
            assert(e2 =~= y2.subrange(d2.len() as int + 1, y2.len() as int));
            lemma_decimal_injective(p1 as nat, p2 as nat);
            lemma_decimal_injective(b1 as nat, b2 as nat);
        }
    }
}

} // verus!
