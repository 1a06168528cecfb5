//! IPv4 addresses in dotted-quad text.

use vstd::prelude::*;
use vstd::utf8::is_ascii_chars;
use crate::args::{all_digits, ascii_bytes, decimal_value, is_digit};
use crate::model::Ipv4;

verus! {

/// The text cut at its dots: the pieces between them, in order.  A text
/// without a dot is one piece; a dot at either end leaves an empty piece.
pub open spec fn split_dots(s: Seq<char>) -> Seq<Seq<char>>
    decreases s.len(),
{
    if s.len() == 0 {
        seq![Seq::<char>::empty()]
    } else {
        let before = split_dots(s.drop_last());
        if s.last() == '.' {
            before.push(Seq::<char>::empty())
        } else {
            before.update(before.len() - 1, before.last().push(s.last()))
        }
    }
}

/// What holds of every beginning of an octet: at most three digits, no
/// zero in front of another digit, and a value of at most 255.
pub open spec fn octet_so_far(s: Seq<char>) -> bool {
    &&& s.len() <= 3
    &&& all_digits(s)
    &&& (s.len() <= 1 || s[0] != '0')
    &&& decimal_value(s) <= 255
}

/// The value of one octet: one to three decimal digits that write a number
/// of at most 255, with no zero in front of another digit.
pub open spec fn octet_of(s: Seq<char>) -> Option<nat> {
    if s.len() >= 1 && octet_so_far(s) {
        Some(decimal_value(s))
    } else {
        None
    }
}

/// Whether every piece is an octet.
pub open spec fn octets_valid(pieces: Seq<Seq<char>>) -> bool {
    forall|j: int| 0 <= j < pieces.len() ==> (#[trigger] octet_of(pieces[j])).is_some()
}

/// The octets read as one number, the first octet in the highest place.
pub open spec fn packed(pieces: Seq<Seq<char>>) -> nat
    decreases pieces.len(),
{
    if pieces.len() == 0 {
        0
    } else {
        packed(pieces.drop_last()) * 256 + decimal_value(pieces.last())
    }
}

/// The address that `s` writes: exactly four octets with a dot between
/// each two, and nothing else.
pub open spec fn ipv4_of(s: Seq<char>) -> Option<nat> {
    let pieces = split_dots(s);
    if pieces.len() == 4 && octets_valid(pieces) {
        Some(packed(pieces))
    } else {
        None
    }
}

/// Cutting a text at its dots leaves at least one piece.
pub proof fn lemma_split_dots_nonempty(s: Seq<char>)
    ensures
        split_dots(s).len() >= 1,
    decreases s.len(),
{
    if s.len() > 0 {
        lemma_split_dots_nonempty(s.drop_last());
    }
}

/// Valid octets pack into a number below 256 to the power of their count.
pub proof fn lemma_packed_bound(pieces: Seq<Seq<char>>)
    requires
        octets_valid(pieces),
        pieces.len() <= 4,
    ensures
        pieces.len() == 0 ==> packed(pieces) == 0,
        pieces.len() == 1 ==> packed(pieces) < 0x100,
        pieces.len() == 2 ==> packed(pieces) < 0x1_0000,
        pieces.len() == 3 ==> packed(pieces) < 0x100_0000,
        pieces.len() == 4 ==> packed(pieces) < 0x1_0000_0000,
    decreases pieces.len(),
{
    if pieces.len() > 0 {
        let front = pieces.drop_last();
        assert forall|j: int| 0 <= j < front.len() implies (#[trigger] octet_of(
            front[j],
        )).is_some() by {
            assert(front[j] == pieces[j]);
        }
        lemma_packed_bound(front);
        assert(octet_of(pieces[pieces.len() - 1]).is_some());
    }
}

/// Whether every piece is made of decimal digits only.
pub open spec fn pieces_are_digits(pieces: Seq<Seq<char>>) -> bool {
    forall|j: int| 0 <= j < pieces.len() ==> all_digits(#[trigger] pieces[j])
}

/// When every piece between the dots is made of digits, the text holds
/// digits and dots only.
pub proof fn lemma_digits_and_dots(s: Seq<char>)
    requires
        pieces_are_digits(split_dots(s)),
    ensures
        forall|i: int| 0 <= i < s.len() ==> (#[trigger] s[i]) == '.' || is_digit(s[i]),
    decreases s.len(),
{
    if s.len() > 0 {
        let shorter = s.drop_last();
        let before = split_dots(shorter);
        let pieces = split_dots(s);
        lemma_split_dots_nonempty(shorter);
        if s.last() == '.' {
            assert forall|j: int| 0 <= j < before.len() implies all_digits(
                #[trigger] before[j],
            ) by {
                assert(pieces[j] == before[j]);
            }
        } else {
            let grown = before.last().push(s.last());
            assert(pieces[before.len() - 1] == grown);
            assert(all_digits(grown));
            assert(grown[grown.len() - 1] == s.last());
            assert forall|j: int| 0 <= j < before.len() implies all_digits(
                #[trigger] before[j],
            ) by {
                if j < before.len() - 1 {
                    assert(pieces[j] == before[j]);
                } else {
                    assert forall|m: int| 0 <= m < before[j].len() implies is_digit(
                        #[trigger] before[j][m],
                    ) by {
                        assert(grown[m] == before[j][m]);
                    }
                }
            }
        }
        lemma_digits_and_dots(shorter);
        assert forall|i: int| 0 <= i < s.len() implies (#[trigger] s[i]) == '.' || is_digit(
            s[i],
        ) by {
            if i < s.len() - 1 {
                assert(shorter[i] == s[i]);
            }
        }
    }
}

/// A text with a character outside ASCII writes no address.
pub proof fn lemma_address_is_ascii(s: Seq<char>)
    requires
        !is_ascii_chars(s),
    ensures
        ipv4_of(s).is_none(),
{
    let i = choose|i: int| 0 <= i < s.len() && !('\0' <= #[trigger] s[i] <= '\u{7f}');
    let pieces = split_dots(s);
    if octets_valid(pieces) {
        assert forall|j: int| 0 <= j < pieces.len() implies all_digits(#[trigger] pieces[j]) by {
            assert(octet_of(pieces[j]).is_some());
        }
        lemma_digits_and_dots(s);
        assert(s[i] == '.' || is_digit(s[i]));
    }
}

/// Reads an IPv4 address in dotted-quad form, such as `192.0.2.5`.
pub fn parse_ipv4(s: &str) -> (r: Option<Ipv4>)
    ensures
        match r {
            Some(address) => ipv4_of(s@) == Some(address.bits as nat),
            None => ipv4_of(s@).is_none(),
        },
{
    let bytes = match ascii_bytes(s) {
        Some(bytes) => bytes,
        None => {
            proof {
                lemma_address_is_ascii(s@);
            }
            return None;
        },
    };
    let n = bytes.len();
    // The pieces before the one being read: how many, whether all are
    // octets and no more than three, and their packed value.
    let mut dots: usize = 0;
    let mut front_ok: bool = true;
    let mut front: u32 = 0;
    // The piece being read.
    let mut cur_ok: bool = true;
    let mut cur_len: usize = 0;
    let mut cur_val: u32 = 0;
    let mut cur_zero: bool = false;
    let mut i: usize = 0;
    assert(s@.take(0) =~= Seq::<char>::empty());
    assert(seq![Seq::<char>::empty()].drop_last() =~= Seq::<Seq<char>>::empty());
    while i < n
        invariant
            i <= n,
            n == s@.len(),
            n == bytes@.len(),
            forall|j: int| 0 <= j < n ==> (#[trigger] bytes@[j]) as int == s@[j] as int,
            dots <= i,
            split_dots(s@.take(i as int)).len() == dots + 1,
            front_ok == (dots <= 3 && octets_valid(split_dots(s@.take(i as int)).drop_last())),
            front_ok ==> front == packed(split_dots(s@.take(i as int)).drop_last()),
            cur_ok == octet_so_far(split_dots(s@.take(i as int)).last()),
            cur_ok ==> cur_len == split_dots(s@.take(i as int)).last().len(),
            cur_ok ==> cur_val == decimal_value(split_dots(s@.take(i as int)).last()),
            cur_ok ==> cur_zero == (cur_len >= 1 && split_dots(s@.take(i as int)).last()[0]
                == '0'),
        decreases n - i,
    {
        let code = bytes[i];
        let ghost c = s@[i as int];
        let ghost before = split_dots(s@.take(i as int));
        let ghost after = split_dots(s@.take(i + 1));
        let ghost cur = before.last();
        proof {
            assert(s@.take(i + 1).drop_last() =~= s@.take(i as int));
            assert(s@.take(i + 1).last() == c);
            assert(c as int == code as int);
        }
        if code == 46 {
            proof {
                assert(after == before.push(Seq::<char>::empty()));
                assert(after.drop_last() =~= before);
                assert(after.last() =~= Seq::<char>::empty());
                assert(before.drop_last().push(cur) =~= before);
                if octets_valid(before) {
                    assert forall|j: int| 0 <= j < before.drop_last().len() implies (
                    #[trigger] octet_of(before.drop_last()[j])).is_some() by {
                        assert(before.drop_last()[j] == before[j]);
                    }
                    assert(octet_of(before[before.len() - 1]).is_some());
                    if before.len() <= 4 {
                        lemma_packed_bound(before);
                    }
                }
                if octets_valid(before.drop_last()) && octet_of(cur).is_some() {
                    assert forall|j: int| 0 <= j < before.len() implies (#[trigger] octet_of(
                        before[j],
                    )).is_some() by {
                        if j < before.len() - 1 {
                            assert(before.drop_last()[j] == before[j]);
                        }
                    }
                    if before.drop_last().len() <= 4 {
                        lemma_packed_bound(before.drop_last());
                    }
                }
            }
            if front_ok && cur_ok && cur_len >= 1 && dots < 3 {
                front = front * 256 + cur_val;
            } else {
                front_ok = false;
            }
            dots += 1;
            cur_ok = true;
            cur_len = 0;
            cur_val = 0;
            cur_zero = false;
        } else {
            let ch = code as u32;
            proof {
                let grown = cur.push(c);
                assert(after == before.update(before.len() - 1, grown));
                assert(after.drop_last() =~= before.drop_last());
                assert(after.last() == grown);
                assert(grown.drop_last() =~= cur);
                assert(grown.last() == c);
                if all_digits(cur) && is_digit(c) {
                    assert forall|j: int| 0 <= j < grown.len() implies is_digit(
                        #[trigger] grown[j],
                    ) by {
                        if j < cur.len() {
                            assert(grown[j] == cur[j]);
                        }
                    }
                }
                if all_digits(grown) {
                    assert(is_digit(grown[grown.len() - 1]));
                    assert forall|j: int| 0 <= j < cur.len() implies is_digit(
                        #[trigger] cur[j],
                    ) by {
                        assert(grown[j] == cur[j]);
                    }
                }
                if cur.len() >= 1 {
                    assert(grown[0] == cur[0]);
                }
                if octet_so_far(grown) {
                    assert(decimal_value(cur) <= decimal_value(grown));
                }
            }
            if cur_ok && 48 <= ch && ch <= 57 && cur_len < 3 && !cur_zero && cur_val * 10 + (ch
                - 48) <= 255 {
                cur_val = cur_val * 10 + (ch - 48);
                cur_zero = cur_len == 0 && ch == 48;
                cur_len += 1;
            } else {
                cur_ok = false;
            }
        }
        i += 1;
    }
    proof {
        let pieces = split_dots(s@);
        assert(s@.take(n as int) =~= s@);
        assert(pieces.drop_last().push(pieces.last()) =~= pieces);
        if octets_valid(pieces) {
            assert forall|j: int| 0 <= j < pieces.drop_last().len() implies (#[trigger] octet_of(
                pieces.drop_last()[j],
            )).is_some() by {
                assert(pieces.drop_last()[j] == pieces[j]);
            }
            assert(octet_of(pieces[pieces.len() - 1]).is_some());
        }
        if octets_valid(pieces.drop_last()) && octet_of(pieces.last()).is_some() {
            assert forall|j: int| 0 <= j < pieces.len() implies (#[trigger] octet_of(
                pieces[j],
            )).is_some() by {
                if j < pieces.len() - 1 {
                    assert(pieces.drop_last()[j] == pieces[j]);
                }
            }
            if pieces.len() <= 4 {
                lemma_packed_bound(pieces.drop_last());
            }
        }
    }
    if front_ok && dots == 3 && cur_ok && cur_len >= 1 {
        Some(Ipv4 { bits: front * 256 + cur_val })
    } else {
        None
    }
}

} // verus!
