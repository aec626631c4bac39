//! The closed set of game areas and their place in the world's height.

use vstd::prelude::*;

verus! {

/// Pixel height of one in-game screen.
pub const SCREEN_HEIGHT: u64 = 611;

/// Height of the whole world, in screens.
pub const TOTAL_SCREENS: u64 = 45;

/// One named region of the world, carrying the 1-based index of the reference
/// screen within that region.
#[derive(Copy, Clone, Debug, PartialEq, Eq, Structural)]
pub enum Area {
    Tower(u32),
    Blue(u32),
    Chapel(u32),
    Stormwall(u32),
    Frontier(u32),
    Bargain(u32),
    False(u32),
    Drain(u32),
    Redcrown(u32),
}

impl Area {
    /// Number of whole screens below the region.
    pub open spec fn base_spec(self) -> nat {
        match self {
            Area::Tower(_) => 39,
            Area::Blue(_) => 36,
            Area::Chapel(_) => 32,
            Area::Stormwall(_) => 25,
            Area::Frontier(_) => 19,
            Area::Bargain(_) => 14,
            Area::False(_) => 10,
            Area::Drain(_) => 5,
            Area::Redcrown(_) => 0,
        }
    }

    /// The screen index carried by the area.
    pub open spec fn num_spec(self) -> nat {
        match self {
            Area::Tower(n) | Area::Blue(n) | Area::Chapel(n) | Area::Stormwall(n)
            | Area::Frontier(n) | Area::Bargain(n) | Area::False(n) | Area::Drain(n)
            | Area::Redcrown(n) => n as nat,
        }
    }

    /// World height, in pixels, at which the area's screen is placed.
    pub open spec fn offset_spec(self) -> nat {
        ((self.num_spec() + self.base_spec()) * SCREEN_HEIGHT) as nat
    }

    /// Display name of the region.
    pub open spec fn name_spec(self) -> Seq<char> {
        match self {
            Area::Tower(_) => "The Tower"@,
            Area::Blue(_) => "Blue Ruin"@,
            Area::Chapel(_) => "Chapel Perilous"@,
            Area::Stormwall(_) => "Stormwall Pass"@,
            Area::Frontier(_) => "Great Frontier"@,
            Area::Bargain(_) => "Bargainburg"@,
            Area::False(_) => "False King's Keep"@,
            Area::Drain(_) => "Colossal Drain"@,
            Area::Redcrown(_) => "Redcrown Woods"@,
        }
    }

    /// Number of whole screens below the region.
    pub fn base(self) -> (r: u64)
        ensures
            r == self.base_spec(),
    {
        match self {
            Area::Tower(_) => 39,
            Area::Blue(_) => 36,
            Area::Chapel(_) => 32,
            Area::Stormwall(_) => 25,
            Area::Frontier(_) => 19,
            Area::Bargain(_) => 14,
            Area::False(_) => 10,
            Area::Drain(_) => 5,
            Area::Redcrown(_) => 0,
        }
    }

    /// World height, in pixels, of the area's screen: `(n + base) * SCREEN_HEIGHT`.
    pub fn height_offset(self) -> (r: u64)
        ensures
            r == self.offset_spec(),
    {
        let n = self.num() as u64;
        let b = self.base();
        assert((n + b) * SCREEN_HEIGHT <= 0xffff_ffff_ffff_ffffu64) by (nonlinear_arith)
            requires
                n <= 0xffff_ffffu64,
                b <= 39,
        ;
        (n + b) * SCREEN_HEIGHT
    }

    /// Display name of the region.
    pub fn name(self) -> (r: String)
        ensures
            r@ == self.name_spec(),
    {
        match self {
            Area::Tower(_) => "The Tower".to_owned(),
            Area::Blue(_) => "Blue Ruin".to_owned(),
            Area::Chapel(_) => "Chapel Perilous".to_owned(),
            Area::Stormwall(_) => "Stormwall Pass".to_owned(),
            Area::Frontier(_) => "Great Frontier".to_owned(),
            Area::Bargain(_) => "Bargainburg".to_owned(),
            Area::False(_) => "False King's Keep".to_owned(),
            Area::Drain(_) => "Colossal Drain".to_owned(),
            Area::Redcrown(_) => "Redcrown Woods".to_owned(),
        }
    }

    /// The screen index carried by the area.
    pub fn num(self) -> (r: u32)
        ensures
            r == self.num_spec(),
    {
        match self {
            Area::Tower(i) | Area::Blue(i) | Area::Chapel(i) | Area::Stormwall(i)
            | Area::Frontier(i) | Area::Bargain(i) | Area::False(i) | Area::Drain(i)
            | Area::Redcrown(i) => i,
        }
    }
}

} // verus!
