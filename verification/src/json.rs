//! Serialization of validation metrics to a compact JSON document and the
//! exact parser for it. Every numeric field is written as a fixed-width,
//! zero-padded decimal string, so each value sits at a fixed offset and the
//! document round-trips byte-exactly: parsing a written document returns
//! precisely the metrics that produced it, and nothing else parses.

use vstd::prelude::*;
use crate::validator::{Metrics, TrackClass, TrackReport};

verus! {

/// Width of every zero-padded decimal value.
pub const PAD_WIDTH: usize = 20;

/// Total length of the summary document.
pub const JSON_LEN: usize = 458;

/// The bytes of `{"n_particles":"`.
pub open spec fn lit0() -> Seq<u8> {
    seq![123u8, 34u8, 110u8, 95u8, 112u8, 97u8, 114u8, 116u8, 105u8, 99u8, 108u8, 101u8, 115u8, 34u8, 58u8, 34u8]
}

/// The bytes of `","n_reconstructible":"`.
pub open spec fn lit1() -> Seq<u8> {
    seq![34u8, 44u8, 34u8, 110u8, 95u8, 114u8, 101u8, 99u8, 111u8, 110u8, 115u8, 116u8, 114u8, 117u8, 99u8, 116u8, 105u8, 98u8, 108u8, 101u8, 34u8, 58u8, 34u8]
}

/// The bytes of `","n_matched":"`.
pub open spec fn lit2() -> Seq<u8> {
    seq![34u8, 44u8, 34u8, 110u8, 95u8, 109u8, 97u8, 116u8, 99u8, 104u8, 101u8, 100u8, 34u8, 58u8, 34u8]
}

/// The bytes of `","n_clones":"`.
pub open spec fn lit3() -> Seq<u8> {
    seq![34u8, 44u8, 34u8, 110u8, 95u8, 99u8, 108u8, 111u8, 110u8, 101u8, 115u8, 34u8, 58u8, 34u8]
}

/// The bytes of `","n_ghosts":"`.
pub open spec fn lit4() -> Seq<u8> {
    seq![34u8, 44u8, 34u8, 110u8, 95u8, 103u8, 104u8, 111u8, 115u8, 116u8, 115u8, 34u8, 58u8, 34u8]
}

/// The bytes of `","n_tracks":"`.
pub open spec fn lit5() -> Seq<u8> {
    seq![34u8, 44u8, 34u8, 110u8, 95u8, 116u8, 114u8, 97u8, 99u8, 107u8, 115u8, 34u8, 58u8, 34u8]
}

/// The bytes of `","efficiency_num":"`.
pub open spec fn lit6() -> Seq<u8> {
    seq![34u8, 44u8, 34u8, 101u8, 102u8, 102u8, 105u8, 99u8, 105u8, 101u8, 110u8, 99u8, 121u8, 95u8, 110u8, 117u8, 109u8, 34u8, 58u8, 34u8]
}

/// The bytes of `","efficiency_den":"`.
pub open spec fn lit7() -> Seq<u8> {
    seq![34u8, 44u8, 34u8, 101u8, 102u8, 102u8, 105u8, 99u8, 105u8, 101u8, 110u8, 99u8, 121u8, 95u8, 100u8, 101u8, 110u8, 34u8, 58u8, 34u8]
}

/// The bytes of `","clone_rate_num":"`.
pub open spec fn lit8() -> Seq<u8> {
    seq![34u8, 44u8, 34u8, 99u8, 108u8, 111u8, 110u8, 101u8, 95u8, 114u8, 97u8, 116u8, 101u8, 95u8, 110u8, 117u8, 109u8, 34u8, 58u8, 34u8]
}

/// The bytes of `","clone_rate_den":"`.
pub open spec fn lit9() -> Seq<u8> {
    seq![34u8, 44u8, 34u8, 99u8, 108u8, 111u8, 110u8, 101u8, 95u8, 114u8, 97u8, 116u8, 101u8, 95u8, 100u8, 101u8, 110u8, 34u8, 58u8, 34u8]
}

/// The bytes of `","ghost_rate_num":"`.
pub open spec fn lit10() -> Seq<u8> {
    seq![34u8, 44u8, 34u8, 103u8, 104u8, 111u8, 115u8, 116u8, 95u8, 114u8, 97u8, 116u8, 101u8, 95u8, 110u8, 117u8, 109u8, 34u8, 58u8, 34u8]
}

/// The bytes of `","ghost_rate_den":"`.
pub open spec fn lit11() -> Seq<u8> {
    seq![34u8, 44u8, 34u8, 103u8, 104u8, 111u8, 115u8, 116u8, 95u8, 114u8, 97u8, 116u8, 101u8, 95u8, 100u8, 101u8, 110u8, 34u8, 58u8, 34u8]
}

/// The bytes of `"}`.
pub open spec fn lit12() -> Seq<u8> {
    seq![34u8, 125u8]
}

/// `n` in decimal, zero-padded to exactly `w` digits (low digits last).
pub open spec fn spec_pad(n: nat, w: nat) -> Seq<u8>
    decreases w,
{
    if w == 0 {
        Seq::empty()
    } else {
        spec_pad(n / 10, (w - 1) as nat).push((48 + n % 10) as u8)
    }
}

/// Value of a digit string, most significant digit first.
pub open spec fn digits_val(s: Seq<u8>) -> int
    decreases s.len(),
{
    if s.len() == 0 {
        0
    } else {
        digits_val(s.drop_last()) * 10 + (s.last() as int - 48)
    }
}

pub open spec fn all_digits(s: Seq<u8>) -> bool {
    forall|k: int| 0 <= k < s.len() ==> 48 <= #[trigger] s[k] <= 57
}

pub open spec fn pow10(w: nat) -> nat
    decreases w,
{
    if w == 0 { 1 } else { 10 * pow10((w - 1) as nat) }
}

proof fn lemma_pow10_20()
    ensures
        pow10(20) == 100_000_000_000_000_000_000,
{
    reveal_with_fuel(pow10, 21);
}

proof fn lemma_pad_props(n: nat, w: nat)
    ensures
        spec_pad(n, w).len() == w,
        all_digits(spec_pad(n, w)),
    decreases w,
{
    if w > 0 {
        lemma_pad_props(n / 10, (w - 1) as nat);
        let p = spec_pad(n / 10, (w - 1) as nat);
        let q = spec_pad(n, w);
        assert(q == p.push((48 + n % 10) as u8));
        assert forall|k: int| 0 <= k < q.len() implies 48 <= #[trigger] q[k] <= 57 by {
            if k < p.len() {
                assert(q[k] == p[k]);
            }
        }
    }
}

proof fn lemma_pad_roundtrip(n: nat, w: nat)
    requires
        n < pow10(w),
    ensures
        digits_val(spec_pad(n, w)) == n,
    decreases w,
{
    if w == 0 {
        assert(pow10(0) == 1);
    } else {
        assert(pow10(w) == 10 * pow10((w - 1) as nat));
        vstd::arithmetic::div_mod::lemma_fundamental_div_mod(n as int, 10);
        if n / 10 >= pow10((w - 1) as nat) {
            vstd::arithmetic::mul::lemma_mul_inequality(
                pow10((w - 1) as nat) as int, (n / 10) as int, 10);
            assert(false);
        }
        lemma_pad_roundtrip(n / 10, (w - 1) as nat);
        let p = spec_pad(n / 10, (w - 1) as nat);
        let q = spec_pad(n, w);
        lemma_pad_props(n / 10, (w - 1) as nat);
        assert(q.drop_last() =~= p);
        assert(q.last() == (48 + n % 10) as u8);
    }
}

/// The summary fields of the document, without the closing bytes.
pub open spec fn spec_json_head(m: Metrics) -> Seq<u8> {
    lit0() + spec_pad(m.n_particles as nat, 20) + lit1() + spec_pad(m.n_reconstructible as nat, 20) + lit2() + spec_pad(m.n_matched as nat, 20) + lit3() + spec_pad(m.n_clones as nat, 20) + lit4() + spec_pad(m.n_ghosts as nat, 20) + lit5() + spec_pad(m.n_tracks as nat, 20) + lit6() + spec_pad(m.eff_num as nat, 20) + lit7() + spec_pad(m.eff_den as nat, 20) + lit8() + spec_pad(m.clone_num as nat, 20) + lit9() + spec_pad(m.clone_den as nat, 20) + lit10() + spec_pad(m.ghost_num as nat, 20) + lit11() + spec_pad(m.ghost_den as nat, 20)
}

/// The summary document owed for metrics `m`.
pub open spec fn spec_json_of(m: Metrics) -> Seq<u8> {
    spec_json_head(m) + lit12()
}

proof fn lemma_json_len(m: Metrics)
    ensures
        spec_json_of(m).len() == JSON_LEN,
{
    lemma_pad_props(m.n_particles as nat, 20);
    lemma_pad_props(m.n_reconstructible as nat, 20);
    lemma_pad_props(m.n_matched as nat, 20);
    lemma_pad_props(m.n_clones as nat, 20);
    lemma_pad_props(m.n_ghosts as nat, 20);
    lemma_pad_props(m.n_tracks as nat, 20);
    lemma_pad_props(m.eff_num as nat, 20);
    lemma_pad_props(m.eff_den as nat, 20);
    lemma_pad_props(m.clone_num as nat, 20);
    lemma_pad_props(m.clone_den as nat, 20);
    lemma_pad_props(m.ghost_num as nat, 20);
    lemma_pad_props(m.ghost_den as nat, 20);
}

proof fn lemma_json_field_0(s: Seq<u8>, m: Metrics)
    requires
        s == spec_json_of(m),
    ensures
        s.subrange(16, 36) == spec_pad(m.n_particles as nat, 20),
{
    lemma_pad_props(m.n_particles as nat, 20);
    lemma_pad_props(m.n_reconstructible as nat, 20);
    lemma_pad_props(m.n_matched as nat, 20);
    lemma_pad_props(m.n_clones as nat, 20);
    lemma_pad_props(m.n_ghosts as nat, 20);
    lemma_pad_props(m.n_tracks as nat, 20);
    lemma_pad_props(m.eff_num as nat, 20);
    lemma_pad_props(m.eff_den as nat, 20);
    lemma_pad_props(m.clone_num as nat, 20);
    lemma_pad_props(m.clone_den as nat, 20);
    lemma_pad_props(m.ghost_num as nat, 20);
    lemma_pad_props(m.ghost_den as nat, 20);
    assert(s.subrange(16, 36) =~= spec_pad(m.n_particles as nat, 20));
}

proof fn lemma_json_field_1(s: Seq<u8>, m: Metrics)
    requires
        s == spec_json_of(m),
    ensures
        s.subrange(59, 79) == spec_pad(m.n_reconstructible as nat, 20),
{
    lemma_pad_props(m.n_particles as nat, 20);
    lemma_pad_props(m.n_reconstructible as nat, 20);
    lemma_pad_props(m.n_matched as nat, 20);
    lemma_pad_props(m.n_clones as nat, 20);
    lemma_pad_props(m.n_ghosts as nat, 20);
    lemma_pad_props(m.n_tracks as nat, 20);
    lemma_pad_props(m.eff_num as nat, 20);
    lemma_pad_props(m.eff_den as nat, 20);
    lemma_pad_props(m.clone_num as nat, 20);
    lemma_pad_props(m.clone_den as nat, 20);
    lemma_pad_props(m.ghost_num as nat, 20);
    lemma_pad_props(m.ghost_den as nat, 20);
    assert(s.subrange(59, 79) =~= spec_pad(m.n_reconstructible as nat, 20));
}

proof fn lemma_json_field_2(s: Seq<u8>, m: Metrics)
    requires
        s == spec_json_of(m),
    ensures
        s.subrange(94, 114) == spec_pad(m.n_matched as nat, 20),
{
    lemma_pad_props(m.n_particles as nat, 20);
    lemma_pad_props(m.n_reconstructible as nat, 20);
    lemma_pad_props(m.n_matched as nat, 20);
    lemma_pad_props(m.n_clones as nat, 20);
    lemma_pad_props(m.n_ghosts as nat, 20);
    lemma_pad_props(m.n_tracks as nat, 20);
    lemma_pad_props(m.eff_num as nat, 20);
    lemma_pad_props(m.eff_den as nat, 20);
    lemma_pad_props(m.clone_num as nat, 20);
    lemma_pad_props(m.clone_den as nat, 20);
    lemma_pad_props(m.ghost_num as nat, 20);
    lemma_pad_props(m.ghost_den as nat, 20);
    assert(s.subrange(94, 114) =~= spec_pad(m.n_matched as nat, 20));
}

proof fn lemma_json_field_3(s: Seq<u8>, m: Metrics)
    requires
        s == spec_json_of(m),
    ensures
        s.subrange(128, 148) == spec_pad(m.n_clones as nat, 20),
{
    lemma_pad_props(m.n_particles as nat, 20);
    lemma_pad_props(m.n_reconstructible as nat, 20);
    lemma_pad_props(m.n_matched as nat, 20);
    lemma_pad_props(m.n_clones as nat, 20);
    lemma_pad_props(m.n_ghosts as nat, 20);
    lemma_pad_props(m.n_tracks as nat, 20);
    lemma_pad_props(m.eff_num as nat, 20);
    lemma_pad_props(m.eff_den as nat, 20);
    lemma_pad_props(m.clone_num as nat, 20);
    lemma_pad_props(m.clone_den as nat, 20);
    lemma_pad_props(m.ghost_num as nat, 20);
    lemma_pad_props(m.ghost_den as nat, 20);
    assert(s.subrange(128, 148) =~= spec_pad(m.n_clones as nat, 20));
}

proof fn lemma_json_field_4(s: Seq<u8>, m: Metrics)
    requires
        s == spec_json_of(m),
    ensures
        s.subrange(162, 182) == spec_pad(m.n_ghosts as nat, 20),
{
    lemma_pad_props(m.n_particles as nat, 20);
    lemma_pad_props(m.n_reconstructible as nat, 20);
    lemma_pad_props(m.n_matched as nat, 20);
    lemma_pad_props(m.n_clones as nat, 20);
    lemma_pad_props(m.n_ghosts as nat, 20);
    lemma_pad_props(m.n_tracks as nat, 20);
    lemma_pad_props(m.eff_num as nat, 20);
    lemma_pad_props(m.eff_den as nat, 20);
    lemma_pad_props(m.clone_num as nat, 20);
    lemma_pad_props(m.clone_den as nat, 20);
    lemma_pad_props(m.ghost_num as nat, 20);
    lemma_pad_props(m.ghost_den as nat, 20);
    assert(s.subrange(162, 182) =~= spec_pad(m.n_ghosts as nat, 20));
}

proof fn lemma_json_field_5(s: Seq<u8>, m: Metrics)
    requires
        s == spec_json_of(m),
    ensures
        s.subrange(196, 216) == spec_pad(m.n_tracks as nat, 20),
{
    lemma_pad_props(m.n_particles as nat, 20);
    lemma_pad_props(m.n_reconstructible as nat, 20);
    lemma_pad_props(m.n_matched as nat, 20);
    lemma_pad_props(m.n_clones as nat, 20);
    lemma_pad_props(m.n_ghosts as nat, 20);
    lemma_pad_props(m.n_tracks as nat, 20);
    lemma_pad_props(m.eff_num as nat, 20);
    lemma_pad_props(m.eff_den as nat, 20);
    lemma_pad_props(m.clone_num as nat, 20);
    lemma_pad_props(m.clone_den as nat, 20);
    lemma_pad_props(m.ghost_num as nat, 20);
    lemma_pad_props(m.ghost_den as nat, 20);
    assert(s.subrange(196, 216) =~= spec_pad(m.n_tracks as nat, 20));
}

proof fn lemma_json_field_6(s: Seq<u8>, m: Metrics)
    requires
        s == spec_json_of(m),
    ensures
        s.subrange(236, 256) == spec_pad(m.eff_num as nat, 20),
{
    lemma_pad_props(m.n_particles as nat, 20);
    lemma_pad_props(m.n_reconstructible as nat, 20);
    lemma_pad_props(m.n_matched as nat, 20);
    lemma_pad_props(m.n_clones as nat, 20);
    lemma_pad_props(m.n_ghosts as nat, 20);
    lemma_pad_props(m.n_tracks as nat, 20);
    lemma_pad_props(m.eff_num as nat, 20);
    lemma_pad_props(m.eff_den as nat, 20);
    lemma_pad_props(m.clone_num as nat, 20);
    lemma_pad_props(m.clone_den as nat, 20);
    lemma_pad_props(m.ghost_num as nat, 20);
    lemma_pad_props(m.ghost_den as nat, 20);
    assert(s.subrange(236, 256) =~= spec_pad(m.eff_num as nat, 20));
}

proof fn lemma_json_field_7(s: Seq<u8>, m: Metrics)
    requires
        s == spec_json_of(m),
    ensures
        s.subrange(276, 296) == spec_pad(m.eff_den as nat, 20),
{
    lemma_pad_props(m.n_particles as nat, 20);
    lemma_pad_props(m.n_reconstructible as nat, 20);
    lemma_pad_props(m.n_matched as nat, 20);
    lemma_pad_props(m.n_clones as nat, 20);
    lemma_pad_props(m.n_ghosts as nat, 20);
    lemma_pad_props(m.n_tracks as nat, 20);
    lemma_pad_props(m.eff_num as nat, 20);
    lemma_pad_props(m.eff_den as nat, 20);
    lemma_pad_props(m.clone_num as nat, 20);
    lemma_pad_props(m.clone_den as nat, 20);
    lemma_pad_props(m.ghost_num as nat, 20);
    lemma_pad_props(m.ghost_den as nat, 20);
    assert(s.subrange(276, 296) =~= spec_pad(m.eff_den as nat, 20));
}

proof fn lemma_json_field_8(s: Seq<u8>, m: Metrics)
    requires
        s == spec_json_of(m),
    ensures
        s.subrange(316, 336) == spec_pad(m.clone_num as nat, 20),
{
    lemma_pad_props(m.n_particles as nat, 20);
    lemma_pad_props(m.n_reconstructible as nat, 20);
    lemma_pad_props(m.n_matched as nat, 20);
    lemma_pad_props(m.n_clones as nat, 20);
    lemma_pad_props(m.n_ghosts as nat, 20);
    lemma_pad_props(m.n_tracks as nat, 20);
    lemma_pad_props(m.eff_num as nat, 20);
    lemma_pad_props(m.eff_den as nat, 20);
    lemma_pad_props(m.clone_num as nat, 20);
    lemma_pad_props(m.clone_den as nat, 20);
    lemma_pad_props(m.ghost_num as nat, 20);
    lemma_pad_props(m.ghost_den as nat, 20);
    assert(s.subrange(316, 336) =~= spec_pad(m.clone_num as nat, 20));
}

proof fn lemma_json_field_9(s: Seq<u8>, m: Metrics)
    requires
        s == spec_json_of(m),
    ensures
        s.subrange(356, 376) == spec_pad(m.clone_den as nat, 20),
{
    lemma_pad_props(m.n_particles as nat, 20);
    lemma_pad_props(m.n_reconstructible as nat, 20);
    lemma_pad_props(m.n_matched as nat, 20);
    lemma_pad_props(m.n_clones as nat, 20);
    lemma_pad_props(m.n_ghosts as nat, 20);
    lemma_pad_props(m.n_tracks as nat, 20);
    lemma_pad_props(m.eff_num as nat, 20);
    lemma_pad_props(m.eff_den as nat, 20);
    lemma_pad_props(m.clone_num as nat, 20);
    lemma_pad_props(m.clone_den as nat, 20);
    lemma_pad_props(m.ghost_num as nat, 20);
    lemma_pad_props(m.ghost_den as nat, 20);
    assert(s.subrange(356, 376) =~= spec_pad(m.clone_den as nat, 20));
}

proof fn lemma_json_field_10(s: Seq<u8>, m: Metrics)
    requires
        s == spec_json_of(m),
    ensures
        s.subrange(396, 416) == spec_pad(m.ghost_num as nat, 20),
{
    lemma_pad_props(m.n_particles as nat, 20);
    lemma_pad_props(m.n_reconstructible as nat, 20);
    lemma_pad_props(m.n_matched as nat, 20);
    lemma_pad_props(m.n_clones as nat, 20);
    lemma_pad_props(m.n_ghosts as nat, 20);
    lemma_pad_props(m.n_tracks as nat, 20);
    lemma_pad_props(m.eff_num as nat, 20);
    lemma_pad_props(m.eff_den as nat, 20);
    lemma_pad_props(m.clone_num as nat, 20);
    lemma_pad_props(m.clone_den as nat, 20);
    lemma_pad_props(m.ghost_num as nat, 20);
    lemma_pad_props(m.ghost_den as nat, 20);
    assert(s.subrange(396, 416) =~= spec_pad(m.ghost_num as nat, 20));
}

proof fn lemma_json_field_11(s: Seq<u8>, m: Metrics)
    requires
        s == spec_json_of(m),
    ensures
        s.subrange(436, 456) == spec_pad(m.ghost_den as nat, 20),
{
    lemma_pad_props(m.n_particles as nat, 20);
    lemma_pad_props(m.n_reconstructible as nat, 20);
    lemma_pad_props(m.n_matched as nat, 20);
    lemma_pad_props(m.n_clones as nat, 20);
    lemma_pad_props(m.n_ghosts as nat, 20);
    lemma_pad_props(m.n_tracks as nat, 20);
    lemma_pad_props(m.eff_num as nat, 20);
    lemma_pad_props(m.eff_den as nat, 20);
    lemma_pad_props(m.clone_num as nat, 20);
    lemma_pad_props(m.clone_den as nat, 20);
    lemma_pad_props(m.ghost_num as nat, 20);
    lemma_pad_props(m.ghost_den as nat, 20);
    assert(s.subrange(436, 456) =~= spec_pad(m.ghost_den as nat, 20));
}

fn push_lit0(out: &mut Vec<u8>)
    ensures
        final(out)@ == old(out)@ + lit0(),
{
    out.push(123u8);
    out.push(34u8);
    out.push(110u8);
    out.push(95u8);
    out.push(112u8);
    out.push(97u8);
    out.push(114u8);
    out.push(116u8);
    out.push(105u8);
    out.push(99u8);
    out.push(108u8);
    out.push(101u8);
    out.push(115u8);
    out.push(34u8);
    out.push(58u8);
    out.push(34u8);
    proof {
        assert(out@ =~= old(out)@ + lit0());
    }
}

fn push_lit1(out: &mut Vec<u8>)
    ensures
        final(out)@ == old(out)@ + lit1(),
{
    out.push(34u8);
    out.push(44u8);
    out.push(34u8);
    out.push(110u8);
    out.push(95u8);
    out.push(114u8);
    out.push(101u8);
    out.push(99u8);
    out.push(111u8);
    out.push(110u8);
    out.push(115u8);
    out.push(116u8);
    out.push(114u8);
    out.push(117u8);
    out.push(99u8);
    out.push(116u8);
    out.push(105u8);
    out.push(98u8);
    out.push(108u8);
    out.push(101u8);
    out.push(34u8);
    out.push(58u8);
    out.push(34u8);
    proof {
        assert(out@ =~= old(out)@ + lit1());
    }
}

fn push_lit2(out: &mut Vec<u8>)
    ensures
        final(out)@ == old(out)@ + lit2(),
{
    out.push(34u8);
    out.push(44u8);
    out.push(34u8);
    out.push(110u8);
    out.push(95u8);
    out.push(109u8);
    out.push(97u8);
    out.push(116u8);
    out.push(99u8);
    out.push(104u8);
    out.push(101u8);
    out.push(100u8);
    out.push(34u8);
    out.push(58u8);
    out.push(34u8);
    proof {
        assert(out@ =~= old(out)@ + lit2());
    }
}

fn push_lit3(out: &mut Vec<u8>)
    ensures
        final(out)@ == old(out)@ + lit3(),
{
    out.push(34u8);
    out.push(44u8);
    out.push(34u8);
    out.push(110u8);
    out.push(95u8);
    out.push(99u8);
    out.push(108u8);
    out.push(111u8);
    out.push(110u8);
    out.push(101u8);
    out.push(115u8);
    out.push(34u8);
    out.push(58u8);
    out.push(34u8);
    proof {
        assert(out@ =~= old(out)@ + lit3());
    }
}

fn push_lit4(out: &mut Vec<u8>)
    ensures
        final(out)@ == old(out)@ + lit4(),
{
    out.push(34u8);
    out.push(44u8);
    out.push(34u8);
    out.push(110u8);
    out.push(95u8);
    out.push(103u8);
    out.push(104u8);
    out.push(111u8);
    out.push(115u8);
    out.push(116u8);
    out.push(115u8);
    out.push(34u8);
    out.push(58u8);
    out.push(34u8);
    proof {
        assert(out@ =~= old(out)@ + lit4());
    }
}

fn push_lit5(out: &mut Vec<u8>)
    ensures
        final(out)@ == old(out)@ + lit5(),
{
    out.push(34u8);
    out.push(44u8);
    out.push(34u8);
    out.push(110u8);
    out.push(95u8);
    out.push(116u8);
    out.push(114u8);
    out.push(97u8);
    out.push(99u8);
    out.push(107u8);
    out.push(115u8);
    out.push(34u8);
    out.push(58u8);
    out.push(34u8);
    proof {
        assert(out@ =~= old(out)@ + lit5());
    }
}

fn push_lit6(out: &mut Vec<u8>)
    ensures
        final(out)@ == old(out)@ + lit6(),
{
    out.push(34u8);
    out.push(44u8);
    out.push(34u8);
    out.push(101u8);
    out.push(102u8);
    out.push(102u8);
    out.push(105u8);
    out.push(99u8);
    out.push(105u8);
    out.push(101u8);
    out.push(110u8);
    out.push(99u8);
    out.push(121u8);
    out.push(95u8);
    out.push(110u8);
    out.push(117u8);
    out.push(109u8);
    out.push(34u8);
    out.push(58u8);
    out.push(34u8);
    proof {
        assert(out@ =~= old(out)@ + lit6());
    }
}

fn push_lit7(out: &mut Vec<u8>)
    ensures
        final(out)@ == old(out)@ + lit7(),
{
    out.push(34u8);
    out.push(44u8);
    out.push(34u8);
    out.push(101u8);
    out.push(102u8);
    out.push(102u8);
    out.push(105u8);
    out.push(99u8);
    out.push(105u8);
    out.push(101u8);
    out.push(110u8);
    out.push(99u8);
    out.push(121u8);
    out.push(95u8);
    out.push(100u8);
    out.push(101u8);
    out.push(110u8);
    out.push(34u8);
    out.push(58u8);
    out.push(34u8);
    proof {
        assert(out@ =~= old(out)@ + lit7());
    }
}

fn push_lit8(out: &mut Vec<u8>)
    ensures
        final(out)@ == old(out)@ + lit8(),
{
    out.push(34u8);
    out.push(44u8);
    out.push(34u8);
    out.push(99u8);
    out.push(108u8);
    out.push(111u8);
    out.push(110u8);
    out.push(101u8);
    out.push(95u8);
    out.push(114u8);
    out.push(97u8);
    out.push(116u8);
    out.push(101u8);
    out.push(95u8);
    out.push(110u8);
    out.push(117u8);
    out.push(109u8);
    out.push(34u8);
    out.push(58u8);
    out.push(34u8);
    proof {
        assert(out@ =~= old(out)@ + lit8());
    }
}

fn push_lit9(out: &mut Vec<u8>)
    ensures
        final(out)@ == old(out)@ + lit9(),
{
    out.push(34u8);
    out.push(44u8);
    out.push(34u8);
    out.push(99u8);
    out.push(108u8);
    out.push(111u8);
    out.push(110u8);
    out.push(101u8);
    out.push(95u8);
    out.push(114u8);
    out.push(97u8);
    out.push(116u8);
    out.push(101u8);
    out.push(95u8);
    out.push(100u8);
    out.push(101u8);
    out.push(110u8);
    out.push(34u8);
    out.push(58u8);
    out.push(34u8);
    proof {
        assert(out@ =~= old(out)@ + lit9());
    }
}

fn push_lit10(out: &mut Vec<u8>)
    ensures
        final(out)@ == old(out)@ + lit10(),
{
    out.push(34u8);
    out.push(44u8);
    out.push(34u8);
    out.push(103u8);
    out.push(104u8);
    out.push(111u8);
    out.push(115u8);
    out.push(116u8);
    out.push(95u8);
    out.push(114u8);
    out.push(97u8);
    out.push(116u8);
    out.push(101u8);
    out.push(95u8);
    out.push(110u8);
    out.push(117u8);
    out.push(109u8);
    out.push(34u8);
    out.push(58u8);
    out.push(34u8);
    proof {
        assert(out@ =~= old(out)@ + lit10());
    }
}

fn push_lit11(out: &mut Vec<u8>)
    ensures
        final(out)@ == old(out)@ + lit11(),
{
    out.push(34u8);
    out.push(44u8);
    out.push(34u8);
    out.push(103u8);
    out.push(104u8);
    out.push(111u8);
    out.push(115u8);
    out.push(116u8);
    out.push(95u8);
    out.push(114u8);
    out.push(97u8);
    out.push(116u8);
    out.push(101u8);
    out.push(95u8);
    out.push(100u8);
    out.push(101u8);
    out.push(110u8);
    out.push(34u8);
    out.push(58u8);
    out.push(34u8);
    proof {
        assert(out@ =~= old(out)@ + lit11());
    }
}

fn push_lit12(out: &mut Vec<u8>)
    ensures
        final(out)@ == old(out)@ + lit12(),
{
    out.push(34u8);
    out.push(125u8);
    proof {
        assert(out@ =~= old(out)@ + lit12());
    }
}

fn push_pad(out: &mut Vec<u8>, n: u64, w: usize)
    ensures
        final(out)@ == old(out)@ + spec_pad(n as nat, w as nat),
    decreases w,
{
    if w == 0 {
        proof {
            assert(out@ =~= old(out)@ + spec_pad(n as nat, 0));
        }
    } else {
        push_pad(out, n / 10, w - 1);
        out.push(48 + (n % 10) as u8);
        proof {
            assert(out@ =~= old(out)@ + spec_pad(n as nat, w as nat));
        }
    }
}

/// Writes the summary metrics as the compact JSON document.
pub fn metrics_to_json(m: &Metrics) -> (r: Vec<u8>)
    ensures
        r@ == spec_json_of(*m),
{
    let mut out: Vec<u8> = Vec::new();
    push_lit0(&mut out);
    push_pad(&mut out, m.n_particles, PAD_WIDTH);
    push_lit1(&mut out);
    push_pad(&mut out, m.n_reconstructible, PAD_WIDTH);
    push_lit2(&mut out);
    push_pad(&mut out, m.n_matched, PAD_WIDTH);
    push_lit3(&mut out);
    push_pad(&mut out, m.n_clones, PAD_WIDTH);
    push_lit4(&mut out);
    push_pad(&mut out, m.n_ghosts, PAD_WIDTH);
    push_lit5(&mut out);
    push_pad(&mut out, m.n_tracks, PAD_WIDTH);
    push_lit6(&mut out);
    push_pad(&mut out, m.eff_num, PAD_WIDTH);
    push_lit7(&mut out);
    push_pad(&mut out, m.eff_den, PAD_WIDTH);
    push_lit8(&mut out);
    push_pad(&mut out, m.clone_num, PAD_WIDTH);
    push_lit9(&mut out);
    push_pad(&mut out, m.clone_den, PAD_WIDTH);
    push_lit10(&mut out);
    push_pad(&mut out, m.ghost_num, PAD_WIDTH);
    push_lit11(&mut out);
    push_pad(&mut out, m.ghost_den, PAD_WIDTH);
    push_lit12(&mut out);
    proof {
        assert(out@ =~= spec_json_of(*m));
    }
    out
}

/// Reads the fixed-width decimal value at byte offset `off`.
fn parse_pad(s: &Vec<u8>, off: usize) -> (r: Option<u64>)
    requires
        off + 20 <= s@.len(),
    ensures
        ({
            let seg = s@.subrange(off as int, off as int + 20);
            r == (if all_digits(seg) && digits_val(seg) <= u64::MAX {
                Some(digits_val(seg) as u64)
            } else {
                None::<u64>
            })
        }),
{
    let ghost seg = s@.subrange(off as int, off as int + 20);
    let slen = s.len();
    let mut acc: u128 = 0;
    let mut k: usize = 0;
    proof {
        lemma_pow10_20();
    }
    while k < 20
        invariant
            off + 20 <= s@.len(),
            slen == s@.len(),
            seg == s@.subrange(off as int, off as int + 20),
            k <= 20,
            forall|j: int| 0 <= j < k ==> 48 <= #[trigger] seg[j] <= 57,
            acc == digits_val(seg.take(k as int)),
            acc < pow10(k as nat),
            pow10(20) == 100_000_000_000_000_000_000,
        decreases 20 - k,
    {
        let b = s[off + k];
        proof {
            assert(seg[k as int] == s@[off + k as int]);
        }
        if b < 48 || b > 57 {
            proof {
                assert(!all_digits(seg));
            }
            return None;
        }
        proof {
            let pre = seg.take(k as int);
            let pre2 = seg.take(k + 1);
            assert(pre2.drop_last() =~= pre);
            assert(pre2.last() == seg[k as int]);
            assert(pow10((k + 1) as nat) == 10 * pow10(k as nat));
            assert(pow10(k as nat) <= pow10(20)) by {
                lemma_pow10_mono(k as nat, 20);
            }
        }
        acc = acc * 10 + ((b - 48) as u128);
        k = k + 1;
    }
    proof {
        assert(seg.take(20) =~= seg);
        assert(all_digits(seg));
    }
    if acc <= u64::MAX as u128 {
        Some(acc as u64)
    } else {
        None
    }
}

proof fn lemma_pow10_mono(a: nat, b: nat)
    requires
        a <= b,
    ensures
        pow10(a) <= pow10(b),
    decreases b,
{
    if a < b {
        lemma_pow10_mono(a, (b - 1) as nat);
        assert(pow10(b) == 10 * pow10((b - 1) as nat));
    }
}

/// Byte-for-byte equality of two buffers.
fn bytes_eq(a: &Vec<u8>, b: &Vec<u8>) -> (r: bool)
    ensures
        r == (a@ == b@),
{
    if a.len() != b.len() {
        proof {
            assert(a@ != b@);
        }
        return false;
    }
    let len = a.len();
    let mut k: usize = 0;
    while k < len
        invariant
            len == a@.len() == b@.len(),
            k <= len,
            forall|j: int| 0 <= j < k ==> a@[j] == b@[j],
        decreases len - k,
    {
        if a[k] != b[k] {
            proof {
                assert(a@ != b@);
            }
            return false;
        }
        k = k + 1;
    }
    proof {
        assert(a@ =~= b@);
    }
    true
}

/// Parses a summary document. Returns the metrics whose document the input
/// is, exactly when it is one: together with `metrics_to_json` this is the
/// round trip, for every metrics value and every input document.
pub fn parse_metrics(s: &Vec<u8>) -> (r: Option<Metrics>)
    ensures
        match r {
            Some(m) => s@ == spec_json_of(m),
            None => true,
        },
        forall|m: Metrics| s@ == spec_json_of(m) ==> r == Some(m),
{
    if s.len() != JSON_LEN {
        proof {
            assert forall|m: Metrics| s@ != spec_json_of(m) by {
                lemma_json_len(m);
            }
        }
        return None;
    }
    let v0 = match parse_pad(s, 16) {
        Some(v) => v,
        None => {
            proof {
                assert forall|m: Metrics| s@ != spec_json_of(m) by {
                    if s@ == spec_json_of(m) {
                        lemma_json_field_0(s@, m);
                        lemma_pad_props(m.n_particles as nat, 20);
                        lemma_pow10_20();
                        lemma_pad_roundtrip(m.n_particles as nat, 20);
                    }
                }
            }
            return None;
        },
    };
    let v1 = match parse_pad(s, 59) {
        Some(v) => v,
        None => {
            proof {
                assert forall|m: Metrics| s@ != spec_json_of(m) by {
                    if s@ == spec_json_of(m) {
                        lemma_json_field_1(s@, m);
                        lemma_pad_props(m.n_reconstructible as nat, 20);
                        lemma_pow10_20();
                        lemma_pad_roundtrip(m.n_reconstructible as nat, 20);
                    }
                }
            }
            return None;
        },
    };
    let v2 = match parse_pad(s, 94) {
        Some(v) => v,
        None => {
            proof {
                assert forall|m: Metrics| s@ != spec_json_of(m) by {
                    if s@ == spec_json_of(m) {
                        lemma_json_field_2(s@, m);
                        lemma_pad_props(m.n_matched as nat, 20);
                        lemma_pow10_20();
                        lemma_pad_roundtrip(m.n_matched as nat, 20);
                    }
                }
            }
            return None;
        },
    };
    let v3 = match parse_pad(s, 128) {
        Some(v) => v,
        None => {
            proof {
                assert forall|m: Metrics| s@ != spec_json_of(m) by {
                    if s@ == spec_json_of(m) {
                        lemma_json_field_3(s@, m);
                        lemma_pad_props(m.n_clones as nat, 20);
                        lemma_pow10_20();
                        lemma_pad_roundtrip(m.n_clones as nat, 20);
                    }
                }
            }
            return None;
        },
    };
    let v4 = match parse_pad(s, 162) {
        Some(v) => v,
        None => {
            proof {
                assert forall|m: Metrics| s@ != spec_json_of(m) by {
                    if s@ == spec_json_of(m) {
                        lemma_json_field_4(s@, m);
                        lemma_pad_props(m.n_ghosts as nat, 20);
                        lemma_pow10_20();
                        lemma_pad_roundtrip(m.n_ghosts as nat, 20);
                    }
                }
            }
            return None;
        },
    };
    let v5 = match parse_pad(s, 196) {
        Some(v) => v,
        None => {
            proof {
                assert forall|m: Metrics| s@ != spec_json_of(m) by {
                    if s@ == spec_json_of(m) {
                        lemma_json_field_5(s@, m);
                        lemma_pad_props(m.n_tracks as nat, 20);
                        lemma_pow10_20();
                        lemma_pad_roundtrip(m.n_tracks as nat, 20);
                    }
                }
            }
            return None;
        },
    };
    let v6 = match parse_pad(s, 236) {
        Some(v) => v,
        None => {
            proof {
                assert forall|m: Metrics| s@ != spec_json_of(m) by {
                    if s@ == spec_json_of(m) {
                        lemma_json_field_6(s@, m);
                        lemma_pad_props(m.eff_num as nat, 20);
                        lemma_pow10_20();
                        lemma_pad_roundtrip(m.eff_num as nat, 20);
                    }
                }
            }
            return None;
        },
    };
    let v7 = match parse_pad(s, 276) {
        Some(v) => v,
        None => {
            proof {
                assert forall|m: Metrics| s@ != spec_json_of(m) by {
                    if s@ == spec_json_of(m) {
                        lemma_json_field_7(s@, m);
                        lemma_pad_props(m.eff_den as nat, 20);
                        lemma_pow10_20();
                        lemma_pad_roundtrip(m.eff_den as nat, 20);
                    }
                }
            }
            return None;
        },
    };
    let v8 = match parse_pad(s, 316) {
        Some(v) => v,
        None => {
            proof {
                assert forall|m: Metrics| s@ != spec_json_of(m) by {
                    if s@ == spec_json_of(m) {
                        lemma_json_field_8(s@, m);
                        lemma_pad_props(m.clone_num as nat, 20);
                        lemma_pow10_20();
                        lemma_pad_roundtrip(m.clone_num as nat, 20);
                    }
                }
            }
            return None;
        },
    };
    let v9 = match parse_pad(s, 356) {
        Some(v) => v,
        None => {
            proof {
                assert forall|m: Metrics| s@ != spec_json_of(m) by {
                    if s@ == spec_json_of(m) {
                        lemma_json_field_9(s@, m);
                        lemma_pad_props(m.clone_den as nat, 20);
                        lemma_pow10_20();
                        lemma_pad_roundtrip(m.clone_den as nat, 20);
                    }
                }
            }
            return None;
        },
    };
    let v10 = match parse_pad(s, 396) {
        Some(v) => v,
        None => {
            proof {
                assert forall|m: Metrics| s@ != spec_json_of(m) by {
                    if s@ == spec_json_of(m) {
                        lemma_json_field_10(s@, m);
                        lemma_pad_props(m.ghost_num as nat, 20);
                        lemma_pow10_20();
                        lemma_pad_roundtrip(m.ghost_num as nat, 20);
                    }
                }
            }
            return None;
        },
    };
    let v11 = match parse_pad(s, 436) {
        Some(v) => v,
        None => {
            proof {
                assert forall|m: Metrics| s@ != spec_json_of(m) by {
                    if s@ == spec_json_of(m) {
                        lemma_json_field_11(s@, m);
                        lemma_pad_props(m.ghost_den as nat, 20);
                        lemma_pow10_20();
                        lemma_pad_roundtrip(m.ghost_den as nat, 20);
                    }
                }
            }
            return None;
        },
    };
    let parsed = Metrics {
        n_tracks: v5,
        n_particles: v0,
        n_reconstructible: v1,
        n_matched: v2,
        n_clones: v3,
        n_ghosts: v4,
        eff_num: v6,
        eff_den: v7,
        clone_num: v8,
        clone_den: v9,
        ghost_num: v10,
        ghost_den: v11,
    };
    let w = metrics_to_json(&parsed);
    let same = bytes_eq(&w, s);
    proof {
        assert forall|m: Metrics| s@ == spec_json_of(m) implies m == parsed by {
            lemma_pow10_20();
            lemma_json_field_0(s@, m);
            lemma_pad_props(m.n_particles as nat, 20);
            lemma_pad_roundtrip(m.n_particles as nat, 20);
            lemma_json_field_1(s@, m);
            lemma_pad_props(m.n_reconstructible as nat, 20);
            lemma_pad_roundtrip(m.n_reconstructible as nat, 20);
            lemma_json_field_2(s@, m);
            lemma_pad_props(m.n_matched as nat, 20);
            lemma_pad_roundtrip(m.n_matched as nat, 20);
            lemma_json_field_3(s@, m);
            lemma_pad_props(m.n_clones as nat, 20);
            lemma_pad_roundtrip(m.n_clones as nat, 20);
            lemma_json_field_4(s@, m);
            lemma_pad_props(m.n_ghosts as nat, 20);
            lemma_pad_roundtrip(m.n_ghosts as nat, 20);
            lemma_json_field_5(s@, m);
            lemma_pad_props(m.n_tracks as nat, 20);
            lemma_pad_roundtrip(m.n_tracks as nat, 20);
            lemma_json_field_6(s@, m);
            lemma_pad_props(m.eff_num as nat, 20);
            lemma_pad_roundtrip(m.eff_num as nat, 20);
            lemma_json_field_7(s@, m);
            lemma_pad_props(m.eff_den as nat, 20);
            lemma_pad_roundtrip(m.eff_den as nat, 20);
            lemma_json_field_8(s@, m);
            lemma_pad_props(m.clone_num as nat, 20);
            lemma_pad_roundtrip(m.clone_num as nat, 20);
            lemma_json_field_9(s@, m);
            lemma_pad_props(m.clone_den as nat, 20);
            lemma_pad_roundtrip(m.clone_den as nat, 20);
            lemma_json_field_10(s@, m);
            lemma_pad_props(m.ghost_num as nat, 20);
            lemma_pad_roundtrip(m.ghost_num as nat, 20);
            lemma_json_field_11(s@, m);
            lemma_pad_props(m.ghost_den as nat, 20);
            lemma_pad_roundtrip(m.ghost_den as nat, 20);
        }
    }
    if same {
        Some(parsed)
    } else {
        proof {
            assert forall|m: Metrics| s@ != spec_json_of(m) by {
                if s@ == spec_json_of(m) {
                    assert(m == parsed);
                }
            }
        }
        None
    }
}


/// The bytes of `{"track_id":"`.
pub open spec fn lit_rl0() -> Seq<u8> {
    seq![123u8, 34u8, 116u8, 114u8, 97u8, 99u8, 107u8, 95u8, 105u8, 100u8, 34u8, 58u8, 34u8]
}

/// The bytes of `","classification":"`.
pub open spec fn lit_rl1() -> Seq<u8> {
    seq![34u8, 44u8, 34u8, 99u8, 108u8, 97u8, 115u8, 115u8, 105u8, 102u8, 105u8, 99u8, 97u8, 116u8, 105u8, 111u8, 110u8, 34u8, 58u8, 34u8]
}

/// The bytes of `","matched_particle_id":`.
pub open spec fn lit_rl2() -> Seq<u8> {
    seq![34u8, 44u8, 34u8, 109u8, 97u8, 116u8, 99u8, 104u8, 101u8, 100u8, 95u8, 112u8, 97u8, 114u8, 116u8, 105u8, 99u8, 108u8, 101u8, 95u8, 105u8, 100u8, 34u8, 58u8]
}

/// The bytes of `,"purity_num":"`.
pub open spec fn lit_rl3() -> Seq<u8> {
    seq![44u8, 34u8, 112u8, 117u8, 114u8, 105u8, 116u8, 121u8, 95u8, 110u8, 117u8, 109u8, 34u8, 58u8, 34u8]
}

/// The bytes of `","purity_den":"`.
pub open spec fn lit_rl4() -> Seq<u8> {
    seq![34u8, 44u8, 34u8, 112u8, 117u8, 114u8, 105u8, 116u8, 121u8, 95u8, 100u8, 101u8, 110u8, 34u8, 58u8, 34u8]
}

/// The bytes of `"}`.
pub open spec fn lit_rl5() -> Seq<u8> {
    seq![34u8, 125u8]
}

/// The bytes of `,"tracks":[`.
pub open spec fn lit_tr_open() -> Seq<u8> {
    seq![44u8, 34u8, 116u8, 114u8, 97u8, 99u8, 107u8, 115u8, 34u8, 58u8, 91u8]
}

/// The bytes of `]}`.
pub open spec fn lit_tr_close() -> Seq<u8> {
    seq![93u8, 125u8]
}

/// The bytes of `matched`.
pub open spec fn lit_matched() -> Seq<u8> {
    seq![109u8, 97u8, 116u8, 99u8, 104u8, 101u8, 100u8]
}

/// The bytes of `clone`.
pub open spec fn lit_clone() -> Seq<u8> {
    seq![99u8, 108u8, 111u8, 110u8, 101u8]
}

/// The bytes of `ghost`.
pub open spec fn lit_ghost() -> Seq<u8> {
    seq![103u8, 104u8, 111u8, 115u8, 116u8]
}

/// The classification word of a per-track report.
pub open spec fn class_bytes(c: TrackClass) -> Seq<u8> {
    match c {
        TrackClass::Matched => lit_matched(),
        TrackClass::Cloned => lit_clone(),
        TrackClass::Phantom => lit_ghost(),
    }
}

/// The matched-particle value: `null`, or the identifier quoted.
pub open spec fn opt_particle_bytes(o: Option<u64>) -> Seq<u8> {
    match o {
        None => seq![110u8, 117u8, 108u8, 108u8],
        Some(id) => seq![34u8] + spec_pad(id as nat, 20) + seq![34u8],
    }
}

/// One per-track report object.
pub open spec fn spec_report_obj(r: TrackReport) -> Seq<u8> {
    lit_rl0() + spec_pad(r.track_id as nat, 20) + lit_rl1() + class_bytes(r.class)
        + lit_rl2() + opt_particle_bytes(r.matched_particle)
        + lit_rl3() + spec_pad(r.purity_num as nat, 20)
        + lit_rl4() + spec_pad(r.purity_den as nat, 20) + lit_rl5()
}

/// The report objects joined by commas.
pub open spec fn spec_reports_arr(rs: Seq<TrackReport>) -> Seq<u8>
    decreases rs.len(),
{
    if rs.len() == 0 {
        Seq::empty()
    } else {
        spec_reports_arr(rs.drop_last())
            + (if rs.len() == 1 { Seq::<u8>::empty() } else { seq![44u8] })
            + spec_report_obj(rs.last())
    }
}

/// The detailed document: the summary fields plus the per-track array.
pub open spec fn spec_detailed_json(m: Metrics, rs: Seq<TrackReport>) -> Seq<u8> {
    spec_json_head(m) + lit_tr_open() + spec_reports_arr(rs) + lit_tr_close()
}

fn push_rl0(out: &mut Vec<u8>)
    ensures
        final(out)@ == old(out)@ + lit_rl0(),
{
    out.push(123u8);
    out.push(34u8);
    out.push(116u8);
    out.push(114u8);
    out.push(97u8);
    out.push(99u8);
    out.push(107u8);
    out.push(95u8);
    out.push(105u8);
    out.push(100u8);
    out.push(34u8);
    out.push(58u8);
    out.push(34u8);
    proof {
        assert(out@ =~= old(out)@ + lit_rl0());
    }
}

fn push_rl1(out: &mut Vec<u8>)
    ensures
        final(out)@ == old(out)@ + lit_rl1(),
{
    out.push(34u8);
    out.push(44u8);
    out.push(34u8);
    out.push(99u8);
    out.push(108u8);
    out.push(97u8);
    out.push(115u8);
    out.push(115u8);
    out.push(105u8);
    out.push(102u8);
    out.push(105u8);
    out.push(99u8);
    out.push(97u8);
    out.push(116u8);
    out.push(105u8);
    out.push(111u8);
    out.push(110u8);
    out.push(34u8);
    out.push(58u8);
    out.push(34u8);
    proof {
        assert(out@ =~= old(out)@ + lit_rl1());
    }
}

fn push_rl2(out: &mut Vec<u8>)
    ensures
        final(out)@ == old(out)@ + lit_rl2(),
{
    out.push(34u8);
    out.push(44u8);
    out.push(34u8);
    out.push(109u8);
    out.push(97u8);
    out.push(116u8);
    out.push(99u8);
    out.push(104u8);
    out.push(101u8);
    out.push(100u8);
    out.push(95u8);
    out.push(112u8);
    out.push(97u8);
    out.push(114u8);
    out.push(116u8);
    out.push(105u8);
    out.push(99u8);
    out.push(108u8);
    out.push(101u8);
    out.push(95u8);
    out.push(105u8);
    out.push(100u8);
    out.push(34u8);
    out.push(58u8);
    proof {
        assert(out@ =~= old(out)@ + lit_rl2());
    }
}

fn push_rl3(out: &mut Vec<u8>)
    ensures
        final(out)@ == old(out)@ + lit_rl3(),
{
    out.push(44u8);
    out.push(34u8);
    out.push(112u8);
    out.push(117u8);
    out.push(114u8);
    out.push(105u8);
    out.push(116u8);
    out.push(121u8);
    out.push(95u8);
    out.push(110u8);
    out.push(117u8);
    out.push(109u8);
    out.push(34u8);
    out.push(58u8);
    out.push(34u8);
    proof {
        assert(out@ =~= old(out)@ + lit_rl3());
    }
}

fn push_rl4(out: &mut Vec<u8>)
    ensures
        final(out)@ == old(out)@ + lit_rl4(),
{
    out.push(34u8);
    out.push(44u8);
    out.push(34u8);
    out.push(112u8);
    out.push(117u8);
    out.push(114u8);
    out.push(105u8);
    out.push(116u8);
    out.push(121u8);
    out.push(95u8);
    out.push(100u8);
    out.push(101u8);
    out.push(110u8);
    out.push(34u8);
    out.push(58u8);
    out.push(34u8);
    proof {
        assert(out@ =~= old(out)@ + lit_rl4());
    }
}

fn push_rl5(out: &mut Vec<u8>)
    ensures
        final(out)@ == old(out)@ + lit_rl5(),
{
    out.push(34u8);
    out.push(125u8);
    proof {
        assert(out@ =~= old(out)@ + lit_rl5());
    }
}

fn push_tr_open(out: &mut Vec<u8>)
    ensures
        final(out)@ == old(out)@ + lit_tr_open(),
{
    out.push(44u8);
    out.push(34u8);
    out.push(116u8);
    out.push(114u8);
    out.push(97u8);
    out.push(99u8);
    out.push(107u8);
    out.push(115u8);
    out.push(34u8);
    out.push(58u8);
    out.push(91u8);
    proof {
        assert(out@ =~= old(out)@ + lit_tr_open());
    }
}

fn push_tr_close(out: &mut Vec<u8>)
    ensures
        final(out)@ == old(out)@ + lit_tr_close(),
{
    out.push(93u8);
    out.push(125u8);
    proof {
        assert(out@ =~= old(out)@ + lit_tr_close());
    }
}

fn push_matched(out: &mut Vec<u8>)
    ensures
        final(out)@ == old(out)@ + lit_matched(),
{
    out.push(109u8);
    out.push(97u8);
    out.push(116u8);
    out.push(99u8);
    out.push(104u8);
    out.push(101u8);
    out.push(100u8);
    proof {
        assert(out@ =~= old(out)@ + lit_matched());
    }
}

fn push_clone(out: &mut Vec<u8>)
    ensures
        final(out)@ == old(out)@ + lit_clone(),
{
    out.push(99u8);
    out.push(108u8);
    out.push(111u8);
    out.push(110u8);
    out.push(101u8);
    proof {
        assert(out@ =~= old(out)@ + lit_clone());
    }
}

fn push_ghost(out: &mut Vec<u8>)
    ensures
        final(out)@ == old(out)@ + lit_ghost(),
{
    out.push(103u8);
    out.push(104u8);
    out.push(111u8);
    out.push(115u8);
    out.push(116u8);
    proof {
        assert(out@ =~= old(out)@ + lit_ghost());
    }
}

fn push_report(out: &mut Vec<u8>, r: &TrackReport)
    ensures
        final(out)@ == old(out)@ + spec_report_obj(*r),
{
    push_rl0(out);
    push_pad(out, r.track_id, PAD_WIDTH);
    push_rl1(out);
    match r.class {
        TrackClass::Matched => push_matched(out),
        TrackClass::Cloned => push_clone(out),
        TrackClass::Phantom => push_ghost(out),
    }
    push_rl2(out);
    match r.matched_particle {
        None => {
            out.push(110u8);
            out.push(117u8);
            out.push(108u8);
            out.push(108u8);
        },
        Some(id) => {
            out.push(34u8);
            push_pad(out, id, PAD_WIDTH);
            out.push(34u8);
        },
    }
    push_rl3(out);
    push_pad(out, r.purity_num, PAD_WIDTH);
    push_rl4(out);
    push_pad(out, r.purity_den, PAD_WIDTH);
    push_rl5(out);
    proof {
        assert(out@ =~= old(out)@ + spec_report_obj(*r));
    }
}

/// Writes the detailed document: the summary fields plus one object per
/// track report, in report order.
pub fn detailed_metrics_to_json(m: &Metrics, rs: &Vec<TrackReport>) -> (r: Vec<u8>)
    ensures
        r@ == spec_detailed_json(*m, rs@),
{
    let mut out: Vec<u8> = Vec::new();
    push_lit0(&mut out);
    push_pad(&mut out, m.n_particles, PAD_WIDTH);
    push_lit1(&mut out);
    push_pad(&mut out, m.n_reconstructible, PAD_WIDTH);
    push_lit2(&mut out);
    push_pad(&mut out, m.n_matched, PAD_WIDTH);
    push_lit3(&mut out);
    push_pad(&mut out, m.n_clones, PAD_WIDTH);
    push_lit4(&mut out);
    push_pad(&mut out, m.n_ghosts, PAD_WIDTH);
    push_lit5(&mut out);
    push_pad(&mut out, m.n_tracks, PAD_WIDTH);
    push_lit6(&mut out);
    push_pad(&mut out, m.eff_num, PAD_WIDTH);
    push_lit7(&mut out);
    push_pad(&mut out, m.eff_den, PAD_WIDTH);
    push_lit8(&mut out);
    push_pad(&mut out, m.clone_num, PAD_WIDTH);
    push_lit9(&mut out);
    push_pad(&mut out, m.clone_den, PAD_WIDTH);
    push_lit10(&mut out);
    push_pad(&mut out, m.ghost_num, PAD_WIDTH);
    push_lit11(&mut out);
    push_pad(&mut out, m.ghost_den, PAD_WIDTH);
    proof {
        assert(out@ =~= spec_json_head(*m));
    }
    push_tr_open(&mut out);
    let ghost prefix = spec_json_head(*m) + lit_tr_open();
    proof {
        assert(out@ == prefix + spec_reports_arr(rs@.take(0int))) by {
            assert(out@ =~= prefix + spec_reports_arr(rs@.take(0int)));
        }
    }
    let n = rs.len();
    let mut i: usize = 0;
    while i < n
        invariant
            n == rs@.len(),
            i <= n,
            out@ == prefix + spec_reports_arr(rs@.take(i as int)),
        decreases n - i,
    {
        if i > 0 {
            out.push(44u8);
        }
        push_report(&mut out, &rs[i]);
        proof {
            assert(rs@.take(i + 1).drop_last() =~= rs@.take(i as int));
            assert(rs@.take(i + 1).last() == rs@[i as int]);
            assert(out@ =~= prefix + spec_reports_arr(rs@.take(i + 1)));
        }
        i = i + 1;
    }
    proof {
        assert(out@ == prefix + spec_reports_arr(rs@.take(n as int)));
    }
    proof {
        assert(rs@.take(n as int) =~= rs@);
    }
    push_tr_close(&mut out);
    proof {
        assert(out@ =~= spec_detailed_json(*m, rs@));
    }
    out
}

} // verus!
