use vstd::prelude::*;
use vstd::string::StringSliceAdditionalSpecFns;

verus! {

/// `b` with a leading `0x`, or else a leading `#`, removed.
pub open spec fn hex_part(b: Seq<u8>) -> Seq<u8> {
    if b.len() >= 2 && b[0] == 0x30 && b[1] == 0x78 {
        b.skip(2)
    } else if b.len() >= 1 && b[0] == 0x23 {
        b.skip(1)
    } else {
        b
    }
}

/// Whether byte index `i` of UTF-8 text `b` starts a character or ends the text.
pub open spec fn starts_char(b: Seq<u8>, i: int) -> bool {
    i == b.len() || (0 <= i < b.len() && (b[i] < 0x80 || b[i] >= 0xc0))
}

/// Whether the colour text (UTF-8 bytes `b`) can be rearranged: when its hex
/// part is eight bytes long, bytes 2, 4 and 6 start characters.
pub open spec fn sliceable(b: Seq<u8>) -> bool {
    let h = hex_part(b);
    h.len() == 8 ==> (starts_char(h, 2) && starts_char(h, 4) && starts_char(h, 6))
}

/// CSS text of an overlay colour: `#` and the hex digits, with an eight-digit
/// `AARRGGBB` colour rearranged to `RRGGBBAA`.
pub open spec fn css_color(b: Seq<u8>) -> Seq<u8> {
    let h = hex_part(b);
    if h.len() == 8 {
        seq![0x23u8] + h.subrange(2, 4) + h.subrange(4, 6) + h.subrange(6, 8) + h.subrange(0, 2)
    } else {
        seq![0x23u8] + h
    }
}

fn hex_start(b: &[u8]) -> (r: usize)
    ensures
        r <= b@.len(),
        b@.skip(r as int) == hex_part(b@),
{
    if b.len() >= 2 && b[0] == 0x30 && b[1] == 0x78 {
        2
    } else if b.len() >= 1 && b[0] == 0x23 {
        1
    } else {
        assert(b@.skip(0) =~= b@);
        0
    }
}

/// Whether `css_color_text` can be applied to `s`.
pub fn css_color_sliceable(s: &str) -> (r: bool)
    ensures
        r == sliceable(s.spec_bytes()),
{
    let b = s.as_bytes();
    let k = hex_start(b);
    if b.len() - k != 8 {
        return true;
    }
    let ok = |i: usize| -> (c: bool)
        requires
            k + i < b@.len(),
        ensures
            c == (b@[k + i] < 0x80 || b@[k + i] >= 0xc0),
        { b[k + i] < 0x80 || b[k + i] >= 0xc0 };
    let r = ok(2) && ok(4) && ok(6);
    assert(hex_part(b@)[2] == b@[k + 2]);
    assert(hex_part(b@)[4] == b@[k + 4]);
    assert(hex_part(b@)[6] == b@[k + 6]);
    r
}

/// The CSS text of overlay colour `s` (`0xAARRGGBB`, `#RRGGBB`, `RGB` and so
/// on), as UTF-8 bytes.
pub fn css_color_text(s: &str) -> (r: Vec<u8>)
    requires
        sliceable(s.spec_bytes()),
    ensures
        r@ == css_color(s.spec_bytes()),
{
    let b = s.as_bytes();
    let k = hex_start(b);
    let mut out: Vec<u8> = vec![0x23];
    if b.len() - k == 8 {
        let order: [usize; 4] = [2, 4, 6, 0];
        let mut j: usize = 0;
        while j < 4
            invariant
                j <= 4,
                k + 8 == b@.len(),
                order@ == seq![2usize, 4, 6, 0],
                out@ == seq![0x23u8] + (if j >= 1 {
                    b@.subrange(k + 2, k + 4)
                } else {
                    Seq::empty()
                }) + (if j >= 2 {
                    b@.subrange(k + 4, k + 6)
                } else {
                    Seq::empty()
                }) + (if j >= 3 {
                    b@.subrange(k + 6, k + 8)
                } else {
                    Seq::empty()
                }) + (if j >= 4 {
                    b@.subrange(k + 0, k + 2)
                } else {
                    Seq::empty()
                }),
            decreases 4 - j,
        {
            assert(order@[j as int] <= 6);
            assert(b@.len() == b.len());
            let at = k + order[j];
            out.push(b[at]);
            out.push(b[at + 1]);
            assert(out@ =~= seq![0x23u8] + (if j + 1 >= 1 {
                b@.subrange(k + 2, k + 4)
            } else {
                Seq::empty()
            }) + (if j + 1 >= 2 {
                b@.subrange(k + 4, k + 6)
            } else {
                Seq::empty()
            }) + (if j + 1 >= 3 {
                b@.subrange(k + 6, k + 8)
            } else {
                Seq::empty()
            }) + (if j + 1 >= 4 {
                b@.subrange(k + 0, k + 2)
            } else {
                Seq::empty()
            }));
            j += 1;
        }
        let ghost h = hex_part(b@);
        assert(h.subrange(2, 4) =~= b@.subrange(k + 2, k + 4));
        assert(h.subrange(4, 6) =~= b@.subrange(k + 4, k + 6));
        assert(h.subrange(6, 8) =~= b@.subrange(k + 6, k + 8));
        assert(h.subrange(0, 2) =~= b@.subrange(k + 0, k + 2));
        assert(out@ =~= css_color(b@));
    } else {
        let mut i = k;
        while i < b.len()
            invariant
                k <= i <= b@.len(),
                out@ == seq![0x23u8] + b@.subrange(k as int, i as int),
            decreases b@.len() - i,
        {
            out.push(b[i]);
            assert(b@.subrange(k as int, i + 1) =~= b@.subrange(k as int, i as int).push(b@[i as int]));
            i += 1;
        }
        assert(b@.subrange(k as int, b@.len() as int) =~= b@.skip(k as int));
    }
    out
}


/// Colour text reaches the CSS parser with its digits unchanged: written as
/// `#h`, `0xh` or a bare `h`, it becomes `#h` whenever `h` is not eight bytes
/// long (so `#RRGGBB` stays the opaque `#RRGGBB`, with no alpha added), and
/// an eight-byte `AARRGGBB` becomes `#RRGGBBAA`.
pub proof fn lemma_css_color_forms(h: Seq<u8>)
    ensures
        css_color(seq![0x23u8] + h) == (if h.len() == 8 {
            seq![0x23u8] + h.subrange(2, 8) + h.subrange(0, 2)
        } else {
            seq![0x23u8] + h
        }),
        css_color(seq![0x30u8, 0x78u8] + h) == (if h.len() == 8 {
            seq![0x23u8] + h.subrange(2, 8) + h.subrange(0, 2)
        } else {
            seq![0x23u8] + h
        }),
        !(h.len() >= 2 && h[0] == 0x30 && h[1] == 0x78) && !(h.len() >= 1 && h[0] == 0x23)
            ==> css_color(h) == (if h.len() == 8 {
            seq![0x23u8] + h.subrange(2, 8) + h.subrange(0, 2)
        } else {
            seq![0x23u8] + h
        }),
        h.len() != 8 ==> css_color(seq![0x23u8] + h).len() == h.len() + 1,
{
    let a = seq![0x23u8] + h;
    assert(a[0] == 0x23u8);
    assert(a.skip(1) =~= h);
    assert(hex_part(a) == h);
    let b = seq![0x30u8, 0x78u8] + h;
    assert(b[0] == 0x30u8 && b[1] == 0x78u8);
    assert(b.skip(2) =~= h);
    assert(hex_part(b) == h);
    if h.len() == 8 {
        assert(h.subrange(2, 4) + h.subrange(4, 6) + h.subrange(6, 8) =~= h.subrange(2, 8));
        assert(seq![0x23u8] + h.subrange(2, 4) + h.subrange(4, 6) + h.subrange(6, 8) + h.subrange(0, 2)
            =~= seq![0x23u8] + h.subrange(2, 8) + h.subrange(0, 2));
    }
}

} // verus!
