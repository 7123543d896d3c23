use vstd::prelude::*;

verus! {

/// The absolute value of an integer.
pub open spec fn abs_spec(x: int) -> int {
    if x < 0 {
        -x
    } else {
        x
    }
}

/// Rust's integer division, which truncates toward zero.
pub open spec fn div_trunc(a: int, b: int) -> int
    recommends
        b > 0,
{
    if a >= 0 {
        a / b
    } else {
        -((-a) / b)
    }
}

/// The 30-bit mask Flash applies to the result of every sound transform product.
pub open spec fn flash_mask(v: i64) -> i32 {
    (v as i32) & 0x3fff_ffffi32
}

/// One mixed channel of a concatenation: `(a * b + c * d) / 100`, truncated, then masked.
pub open spec fn mix_spec(a: i32, b: i32, c: i32, d: i32) -> i32 {
    flash_mask(div_trunc(a * b + c * d, 100) as i64)
}

/// Represents the sound transform of sounds played inside a movie clip.
/// Every value is a percentage (0-100), but out of range values are allowed.
#[derive(Debug, PartialEq, Eq, Copy, Clone)]
pub struct SoundTransform {
    pub volume: i32,
    pub left_to_left: i32,
    pub left_to_right: i32,
    pub right_to_left: i32,
    pub right_to_right: i32,
}

fn abs_i32(x: i32) -> (r: i32)
    requires
        x != i32::MIN,
    ensures
        r == abs_spec(x as int),
{
    if x < 0 {
        -x
    } else {
        x
    }
}

fn abs_i64(x: i64) -> (r: i64)
    requires
        x != i64::MIN,
    ensures
        r == abs_spec(x as int),
{
    if x < 0 {
        -x
    } else {
        x
    }
}

/// Truncating division by the full volume, as Rust's `/` does it on `i64`.
fn div_by_max_volume(a: i64) -> (r: i64)
    ensures
        r == div_trunc(a as int, 100),
{
    let q = a / 100;
    proof {
        // Rust's `/` rounds toward zero; `div_trunc` says the same thing over `int`.
        assert(q == div_trunc(a as int, 100)) by {
            if a >= 0 {
            } else {
                assert(-(a as int) >= 0);
            }
        }
    }
    q
}

/// One mixed channel: `(a * b + c * d) / 100`, masked to 30 bits.
fn mix(a: i32, b: i32, c: i32, d: i32) -> (r: i32)
    requires
        a * b + c * d <= i64::MAX,
    ensures
        r == mix_spec(a, b, c, d),
{
    proof {
        assert(-0x4000_0000_0000_0000 <= (a as int) * (b as int) <= 0x4000_0000_0000_0000)
            by (nonlinear_arith)
            requires
                -0x8000_0000 <= a <= 0x7fff_ffff,
                -0x8000_0000 <= b <= 0x7fff_ffff,
        ;
        assert(-0x4000_0000_0000_0000 <= (c as int) * (d as int) <= 0x4000_0000_0000_0000)
            by (nonlinear_arith)
            requires
                -0x8000_0000 <= c <= 0x7fff_ffff,
                -0x8000_0000 <= d <= 0x7fff_ffff,
        ;
    }
    let ab = (a as i64) * (b as i64);
    let cd = (c as i64) * (d as i64);
    let q = div_by_max_volume(ab + cd);
    (#[verifier::truncate] (q as i32)) & 0x3fff_ffff
}

impl SoundTransform {
    pub const MAX_VOLUME: i32 = 100;

    /// The transform that leaves sound untouched: full volume, no cross-mixing.
    pub open spec fn default_spec() -> SoundTransform {
        SoundTransform {
            volume: 100,
            left_to_left: 100,
            left_to_right: 0,
            right_to_left: 0,
            right_to_right: 100,
        }
    }

    /// The volume of `self` applied on top of `other`: `|a * b / 100|`, masked to 30 bits.
    pub open spec fn concat_volume(a: i32, b: i32) -> i32 {
        flash_mask(abs_spec(div_trunc(a * b, 100)) as i64)
    }

    /// `self` with `other` applied on top: the volumes multiply and the channel matrices
    /// multiply as 2x2 matrices, each in integer percentages masked to 30 bits.
    pub open spec fn concat_spec(self, other: SoundTransform) -> SoundTransform {
        SoundTransform {
            volume: Self::concat_volume(self.volume, other.volume),
            left_to_left: mix_spec(
                self.left_to_left,
                other.left_to_left,
                self.right_to_left,
                other.left_to_right,
            ),
            left_to_right: mix_spec(
                self.left_to_right,
                other.left_to_left,
                self.right_to_right,
                other.left_to_right,
            ),
            right_to_left: mix_spec(
                self.left_to_left,
                other.right_to_left,
                self.right_to_left,
                other.right_to_right,
            ),
            right_to_right: mix_spec(
                self.left_to_right,
                other.right_to_left,
                self.right_to_right,
                other.right_to_right,
            ),
        }
    }

    /// The pan this transform reports: -100 is full left and 100 is full right.
    pub open spec fn pan_spec(self) -> int {
        if self.left_to_left != 100 {
            100 - abs_spec(self.left_to_left as int)
        } else {
            abs_spec(self.right_to_right as int) - 100
        }
    }

    /// `self` panned to `pan`, with the cross-mixing channels cleared.
    pub open spec fn with_pan_spec(self, pan: i32) -> SoundTransform {
        if pan >= 0 {
            SoundTransform {
                left_to_left: (100 - pan) as i32,
                right_to_right: 100,
                left_to_right: 0,
                right_to_left: 0,
                ..self
            }
        } else {
            SoundTransform {
                left_to_left: 100,
                right_to_right: (100 + pan) as i32,
                left_to_right: 0,
                right_to_left: 0,
                ..self
            }
        }
    }

    /// Applies another SoundTransform on top of this SoundTransform.
    pub fn concat(self, other: SoundTransform) -> (r: SoundTransform)
        requires
            self.left_to_left * other.left_to_left + self.right_to_left * other.left_to_right
                <= i64::MAX,
            self.left_to_right * other.left_to_left + self.right_to_right * other.left_to_right
                <= i64::MAX,
            self.left_to_left * other.right_to_left + self.right_to_left * other.right_to_right
                <= i64::MAX,
            self.left_to_right * other.right_to_left + self.right_to_right * other.right_to_right
                <= i64::MAX,
        ensures
            r == self.concat_spec(other),
    {
        proof {
            assert(-0x4000_0000_0000_0000 <= (self.volume as int) * (other.volume as int)
                <= 0x4000_0000_0000_0000) by (nonlinear_arith)
                requires
                    -0x8000_0000 <= self.volume <= 0x7fff_ffff,
                    -0x8000_0000 <= other.volume <= 0x7fff_ffff,
            ;
        }
        let product = (self.volume as i64) * (other.volume as i64);
        let scaled = div_by_max_volume(product);
        let volume = (#[verifier::truncate] (abs_i64(scaled) as i32)) & 0x3fff_ffff;
        SoundTransform {
            volume,
            left_to_left: mix(
                self.left_to_left,
                other.left_to_left,
                self.right_to_left,
                other.left_to_right,
            ),
            left_to_right: mix(
                self.left_to_right,
                other.left_to_left,
                self.right_to_right,
                other.left_to_right,
            ),
            right_to_left: mix(
                self.left_to_left,
                other.right_to_left,
                self.right_to_left,
                other.right_to_right,
            ),
            right_to_right: mix(
                self.left_to_right,
                other.right_to_left,
                self.right_to_right,
                other.right_to_right,
            ),
        }
    }

    /// Returns the pan of this transform: -100 is full left and 100 is full right.
    pub fn pan(&self) -> (r: i32)
        requires
            self.left_to_left != i32::MIN,
            self.left_to_left == 100 ==> self.right_to_right != i32::MIN,
        ensures
            r == self.pan_spec(),
    {
        if self.left_to_left != Self::MAX_VOLUME {
            Self::MAX_VOLUME - abs_i32(self.left_to_left)
        } else {
            abs_i32(self.right_to_right) - Self::MAX_VOLUME
        }
    }

    /// Modifies the pan of this transform: -100 is full left and 100 is full right.
    pub fn with_pan(self, pan: i32) -> (r: SoundTransform)
        requires
            pan >= 0 ==> 100 - pan >= i32::MIN,
            pan < 0 ==> 100 + pan <= i32::MAX,
        ensures
            r == self.with_pan_spec(pan),
    {
        let mut out = self;
        if pan >= 0 {
            out.left_to_left = Self::MAX_VOLUME - pan;
            out.right_to_right = Self::MAX_VOLUME;
        } else {
            out.left_to_left = Self::MAX_VOLUME;
            out.right_to_right = Self::MAX_VOLUME + pan;
        }
        out.left_to_right = 0;
        out.right_to_left = 0;
        out
    }

    /// The identity transform: full volume, no cross-mixing.
    pub fn default() -> (r: SoundTransform)
        ensures
            r == Self::default_spec(),
    {
        SoundTransform {
            volume: 100,
            left_to_left: 100,
            left_to_right: 0,
            right_to_left: 0,
            right_to_right: 100,
        }
    }
}

/// A value already inside Flash's 30-bit range is unchanged by the mask.
proof fn lemma_mask_keeps_small(x: i64)
    requires
        0 <= x < 0x4000_0000,
    ensures
        flash_mask(x) == x,
{
    assert((x as i32) & 0x3fff_ffffi32 == x) by (bit_vector)
        requires
            0 <= x < 0x4000_0000i64,
    ;
}

/// A transform whose values all lie within Flash's 30-bit range.
pub open spec fn in_mask_range(t: SoundTransform) -> bool {
    &&& 0 <= t.volume < 0x4000_0000
    &&& 0 <= t.left_to_left < 0x4000_0000
    &&& 0 <= t.left_to_right < 0x4000_0000
    &&& 0 <= t.right_to_left < 0x4000_0000
    &&& 0 <= t.right_to_right < 0x4000_0000
}

/// Concatenating the default transform, on either side, changes nothing about a transform whose
/// values Flash's 30-bit mask leaves alone.
pub proof fn law_concat_default_is_identity(t: SoundTransform)
    requires
        in_mask_range(t),
    ensures
        t.concat_spec(SoundTransform::default_spec()) == t,
        SoundTransform::default_spec().concat_spec(t) == t,
{
    let d = SoundTransform::default_spec();
    assert(t.volume * 100 / 100 == t.volume) by (nonlinear_arith)
        requires
            t.volume >= 0,
    ;
    assert(100 * t.volume / 100 == t.volume) by (nonlinear_arith)
        requires
            t.volume >= 0,
    ;
    lemma_mask_keeps_small(t.volume as i64);
    lemma_mask_keeps_small(t.left_to_left as i64);
    lemma_mask_keeps_small(t.left_to_right as i64);
    lemma_mask_keeps_small(t.right_to_left as i64);
    lemma_mask_keeps_small(t.right_to_right as i64);
    assert(t.concat_spec(d).left_to_left == t.left_to_left);
    assert(t.concat_spec(d).right_to_right == t.right_to_right);
    assert(d.concat_spec(t).left_to_left == t.left_to_left);
    assert(d.concat_spec(t).right_to_right == t.right_to_right);
}

/// Panning to any value in the range -100..=100 and reading the pan back gives that value.
pub proof fn law_pan_round_trip(t: SoundTransform, pan: i32)
    requires
        -100 <= pan <= 100,
    ensures
        t.with_pan_spec(pan).pan_spec() == pan,
{
}

} // verus!
