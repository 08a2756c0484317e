use vstd::prelude::*;

use crate::bits::{all_on, bits_of, lemma_bits_disjoint, mask_of};

verus! {

/// The fourteen signals of a HUB75 connector.
#[derive(Clone, Copy, Debug, PartialEq, Eq, Structural)]
pub enum Role {
    R1,
    G1,
    B1,
    R2,
    G2,
    B2,
    A,
    B,
    C,
    D,
    E,
    Clk,
    Lat,
    Oe,
}

impl Role {
    /// Place of the role in the order R1, G1, B1, R2, G2, B2, A, B, C, D, E, CLK, LAT, OE.
    pub open spec fn index(self) -> int {
        match self {
            Role::R1 => 0,
            Role::G1 => 1,
            Role::B1 => 2,
            Role::R2 => 3,
            Role::G2 => 4,
            Role::B2 => 5,
            Role::A => 6,
            Role::B => 7,
            Role::C => 8,
            Role::D => 9,
            Role::E => 10,
            Role::Clk => 11,
            Role::Lat => 12,
            Role::Oe => 13,
        }
    }

    /// The role at place `i` of that order.
    pub fn at(i: usize) -> (r: Role)
        requires
            i < 14,
        ensures
            r.index() == i,
    {
        match i {
            0 => Role::R1,
            1 => Role::G1,
            2 => Role::B1,
            3 => Role::R2,
            4 => Role::G2,
            5 => Role::B2,
            6 => Role::A,
            7 => Role::B,
            8 => Role::C,
            9 => Role::D,
            10 => Role::E,
            11 => Role::Clk,
            12 => Role::Lat,
            _ => Role::Oe,
        }
    }
}

/// Why a pin assignment or a panel configuration was refused.
#[derive(Clone, Copy, Debug, PartialEq, Eq, Structural)]
pub enum ConfigError {
    /// The bus word width is not in `1..=32`.
    InvalidWidth { width: u32 },
    /// A role's position lies outside `[0, width)`.
    OutOfRange { role: Role, position: i32 },
    /// Two roles share one position.
    Collision { first: Role, second: Role },
    /// The colour depth is not in `5..=8`.
    InvalidDepth { depth: u8 },
}

/// Raw role-to-line assignment: the GPIO number (bit position of the output register)
/// that carries each HUB75 signal, as configured and not yet checked.
#[derive(Clone, Copy, Debug)]
pub struct PinConfig {
    pub r1: i32,
    pub g1: i32,
    pub b1: i32,
    pub r2: i32,
    pub g2: i32,
    pub b2: i32,
    pub a: i32,
    pub b: i32,
    pub c: i32,
    pub d: i32,
    pub e: i32,
    pub lat: i32,
    pub oe: i32,
    pub clk: i32,
}

impl Default for PinConfig {
    fn default() -> (r: Self)
        ensures
            r.positions() == seq![38i32, 14, 39, 21, 12, 47, 48, 10, 45, 9, 11, 0, 46, 40],
    {
        let r = PinConfig {
            r1: 38,
            g1: 14,
            b1: 39,
            r2: 21,
            g2: 12,
            b2: 47,
            a: 48,
            b: 10,
            c: 45,
            d: 9,
            e: 11,
            lat: 46,
            oe: 40,
            clk: 0,
        };
        assert(r.positions() =~= seq![38i32, 14, 39, 21, 12, 47, 48, 10, 45, 9, 11, 0, 46, 40]);
        r
    }
}

impl PinConfig {
    /// The positions in role order (see `Role::index`).
    pub open spec fn positions(self) -> Seq<i32> {
        seq![
            self.r1, self.g1, self.b1, self.r2, self.g2, self.b2, self.a, self.b, self.c,
            self.d, self.e, self.clk, self.lat, self.oe,
        ]
    }

    pub open spec fn pos(self, role: Role) -> i32 {
        self.positions()[role.index()]
    }

    /// Every position lies in `[0, width)`.
    pub open spec fn in_range(self, width: u32) -> bool {
        forall|i: int| 0 <= i < 14 ==> 0 <= #[trigger] self.positions()[i] < width
    }

    /// No two roles share a position.
    pub open spec fn distinct(self) -> bool {
        forall|i: int, j: int|
            0 <= i < 14 && 0 <= j < 14 && i != j ==> #[trigger] self.positions()[i]
                != #[trigger] self.positions()[j]
    }

    /// What `Pins::new` accepts.
    pub open spec fn valid_for(self, width: u32) -> bool {
        1 <= width <= 32 && self.in_range(width) && self.distinct()
    }

    fn position_list(&self) -> (r: [i32; 14])
        ensures
            r@ == self.positions(),
    {
        let r = [
            self.r1, self.g1, self.b1, self.r2, self.g2, self.b2, self.a, self.b, self.c,
            self.d, self.e, self.clk, self.lat, self.oe,
        ];
        assert(r@ =~= self.positions());
        r
    }
}

/// A validated pin assignment: every role has its own bit of one output register word.
pub struct Pins {
    positions: [u8; 14],
    width: u32,
}

impl Pins {
    /// Bit positions in role order (see `Role::index`).
    pub closed spec fn positions(self) -> Seq<u8> {
        self.positions@
    }

    /// Width of the bus word.
    pub closed spec fn width_spec(self) -> u32 {
        self.width
    }

    pub open spec fn pos(self, role: Role) -> u8 {
        self.positions()[role.index()]
    }

    pub open spec fn wf(self) -> bool {
        &&& self.positions().len() == 14
        &&& 1 <= self.width_spec() <= 32
        &&& forall|i: int| 0 <= i < 14 ==> #[trigger] self.positions()[i] < self.width_spec()
        &&& forall|i: int, j: int|
            0 <= i < 14 && 0 <= j < 14 && i != j ==> #[trigger] self.positions()[i]
                != #[trigger] self.positions()[j]
    }

    /// OR of the six RGB data bits.
    pub open spec fn rgb_mask_spec(self) -> u32 {
        mask_of(self.positions().subrange(0, 6))
    }

    /// OR of the five row-address bits.
    pub open spec fn addr_mask_spec(self) -> u32 {
        mask_of(self.positions().subrange(6, 11))
    }

    /// OR of the clock, latch and output-enable bits.
    pub open spec fn control_mask_spec(self) -> u32 {
        mask_of(self.positions().subrange(11, 14))
    }

    /// OR of all fourteen driven bits.
    pub open spec fn driven_mask_spec(self) -> u32 {
        self.rgb_mask_spec() | self.addr_mask_spec() | self.control_mask_spec()
    }

    /// The bit position of `role`.
    pub fn position(&self, role: Role) -> (r: u8)
        requires
            self.wf(),
        ensures
            r == self.pos(role),
    {
        match role {
            Role::R1 => self.positions[0],
            Role::G1 => self.positions[1],
            Role::B1 => self.positions[2],
            Role::R2 => self.positions[3],
            Role::G2 => self.positions[4],
            Role::B2 => self.positions[5],
            Role::A => self.positions[6],
            Role::B => self.positions[7],
            Role::C => self.positions[8],
            Role::D => self.positions[9],
            Role::E => self.positions[10],
            Role::Clk => self.positions[11],
            Role::Lat => self.positions[12],
            Role::Oe => self.positions[13],
        }
    }

    /// The bit positions in role order.
    pub fn position_list(&self) -> (r: Vec<u8>)
        requires
            self.wf(),
        ensures
            r@ == self.positions(),
    {
        let mut r: Vec<u8> = Vec::new();
        let mut k: usize = 0;
        while k < 14
            invariant
                self.wf(),
                k <= 14,
                r@ == self.positions().subrange(0, k as int),
            decreases 14 - k,
        {
            r.push(self.positions[k]);
            k = k + 1;
            assert(r@ =~= self.positions().subrange(0, k as int));
        }
        assert(r@ =~= self.positions());
        r
    }

    /// The bus word in which exactly the roles marked in `levels` (role order) are high.
    pub fn encode(&self, levels: &[bool; 14]) -> (w: u32)
        requires
            self.wf(),
        ensures
            w == bits_of(self.positions(), levels@),
    {
        let mut w: u32 = 0;
        let mut k: usize = 0;
        while k < 14
            invariant
                self.wf(),
                k <= 14,
                w == bits_of(self.positions().take(k as int), levels@.take(k as int)),
            decreases 14 - k,
        {
            assert(self.positions().take(k + 1).drop_last() =~= self.positions().take(k as int));
            assert(levels@.take(k + 1).drop_last() =~= levels@.take(k as int));
            assert(self.positions()[k as int] < 32);
            if levels[k] {
                w = w | (1u32 << self.positions[k]);
            }
            k = k + 1;
        }
        assert(self.positions().take(14) =~= self.positions());
        assert(levels@.take(14) =~= levels@);
        w
    }

    /// Width of the bus word.
    pub fn width(&self) -> (r: u32)
        ensures
            r == self.width_spec(),
    {
        self.width
    }

    /// OR of the bits at positions `lo..hi` of the role order.
    fn mask_over(&self, lo: usize, hi: usize) -> (r: u32)
        requires
            self.wf(),
            lo <= hi <= 14,
        ensures
            r == mask_of(self.positions().subrange(lo as int, hi as int)),
    {
        let mut m: u32 = 0;
        let mut k: usize = lo;
        while k < hi
            invariant
                self.wf(),
                lo <= k <= hi <= 14,
                m == mask_of(self.positions().subrange(lo as int, k as int)),
            decreases hi - k,
        {
            let ghost before = self.positions().subrange(lo as int, k as int);
            let ghost after = self.positions().subrange(lo as int, k + 1);
            assert(after.drop_last() =~= before);
            assert(all_on(after.len()).drop_last() =~= all_on(before.len()));
            assert(self.positions()[k as int] < 32);
            m = m | (1u32 << self.positions[k]);
            k = k + 1;
        }
        m
    }

    /// OR of the six RGB data bits.
    pub fn rgb_mask(&self) -> (r: u32)
        requires
            self.wf(),
        ensures
            r == self.rgb_mask_spec(),
    {
        self.mask_over(0, 6)
    }

    /// OR of the five row-address bits.
    pub fn addr_mask(&self) -> (r: u32)
        requires
            self.wf(),
        ensures
            r == self.addr_mask_spec(),
    {
        self.mask_over(6, 11)
    }

    /// OR of every bit that the panel's signals drive.
    pub fn driven_mask(&self) -> (r: u32)
        requires
            self.wf(),
        ensures
            r == self.driven_mask_spec(),
    {
        self.mask_over(0, 6) | self.mask_over(6, 11) | self.mask_over(11, 14)
    }

    /// Checks a role-to-position assignment against a bus word of `width` bits.
    pub fn new(config: &PinConfig, width: u32) -> (r: Result<Pins, ConfigError>)
        ensures
            r is Ok <==> config.valid_for(width),
            r matches Ok(p) ==> {
                &&& p.wf()
                &&& p.width_spec() == width
                &&& forall|i: int| 0 <= i < 14 ==> p.positions()[i] == config.positions()[i]
            },
            (r matches Err(ConfigError::InvalidWidth { .. })) <==> !(1 <= width <= 32),
            (r matches Err(ConfigError::OutOfRange { .. })) <==> 1 <= width <= 32
                && !config.in_range(width),
            (r matches Err(ConfigError::Collision { .. })) <==> 1 <= width <= 32
                && config.in_range(width) && !config.distinct(),
            r matches Err(ConfigError::InvalidWidth { width: w }) ==> w == width,
            r matches Err(ConfigError::OutOfRange { role, position }) ==> {
                &&& position == config.pos(role)
                &&& !(0 <= position < width)
                &&& forall|i: int| 0 <= i < role.index() ==> 0 <= #[trigger] config.positions()[i] < width
            },
            r matches Err(ConfigError::Collision { first, second }) ==> {
                &&& first.index() < second.index()
                &&& config.pos(first) == config.pos(second)
            },
    {
        if width == 0 || width > 32 {
            return Err(ConfigError::InvalidWidth { width });
        }
        let ps = config.position_list();
        let mut i: usize = 0;
        while i < 14
            invariant
                1 <= width <= 32,
                ps@ == config.positions(),
                i <= 14,
                forall|k: int| 0 <= k < i ==> 0 <= #[trigger] ps@[k] < width,
            decreases 14 - i,
        {
            if ps[i] < 0 || ps[i] >= width as i32 {
                let role = Role::at(i);
                assert(!config.in_range(width));
                return Err(ConfigError::OutOfRange { role, position: ps[i] });
            }
            i = i + 1;
        }
        assert(config.in_range(width));
        let mut i: usize = 0;
        while i < 14
            invariant
                1 <= width <= 32,
                ps@ == config.positions(),
                config.in_range(width),
                i <= 14,
                forall|k: int, l: int|
                    0 <= k < i && 0 <= l < 14 && k != l ==> #[trigger] ps@[k] != #[trigger] ps@[l],
            decreases 14 - i,
        {
            let mut j: usize = i + 1;
            while j < 14
                invariant
                    1 <= width <= 32,
                    ps@ == config.positions(),
                    config.in_range(width),
                    i < j <= 14,
                    forall|k: int, l: int|
                        0 <= k < i && 0 <= l < 14 && k != l ==> #[trigger] ps@[k] != #[trigger] ps@[l],
                    forall|l: int| i < l < j ==> ps@[i as int] != #[trigger] ps@[l],
                decreases 14 - j,
            {
                if ps[i] == ps[j] {
                    assert(!config.distinct());
                    return Err(ConfigError::Collision { first: Role::at(i), second: Role::at(j) });
                }
                j = j + 1;
            }
            i = i + 1;
        }
        assert(config.distinct());
        let positions: [u8; 14] = [
            ps[0] as u8,
            ps[1] as u8,
            ps[2] as u8,
            ps[3] as u8,
            ps[4] as u8,
            ps[5] as u8,
            ps[6] as u8,
            ps[7] as u8,
            ps[8] as u8,
            ps[9] as u8,
            ps[10] as u8,
            ps[11] as u8,
            ps[12] as u8,
            ps[13] as u8,
        ];
        let p = Pins { positions, width };
        assert forall|i: int| 0 <= i < 14 implies p.positions()[i] == config.positions()[i] by {
            assert(0 <= ps@[i] < width);
        }
        Ok(p)
    }
}

/// For a valid assignment the RGB, address and control masks are pairwise disjoint, and
/// every role's bit lies below the word width.
pub proof fn lemma_masks_disjoint(p: Pins)
    requires
        p.wf(),
    ensures
        p.rgb_mask_spec() & p.addr_mask_spec() == 0,
        p.rgb_mask_spec() & p.control_mask_spec() == 0,
        p.addr_mask_spec() & p.control_mask_spec() == 0,
        forall|role: Role| #[trigger] p.pos(role) < p.width_spec(),
{
    let ps = p.positions();
    let (rgb, addr, ctl) = (ps.subrange(0, 6), ps.subrange(6, 11), ps.subrange(11, 14));
    assert forall|role: Role| #[trigger] p.pos(role) < p.width_spec() by {
        assert(ps[role.index()] < p.width_spec());
    }
    assert forall|i: int, j: int| 0 <= i < rgb.len() && 0 <= j < addr.len()
        implies #[trigger] rgb[i] != #[trigger] addr[j] by {
        assert(ps[i] != ps[j + 6]);
    }
    assert forall|i: int, j: int| 0 <= i < rgb.len() && 0 <= j < ctl.len()
        implies #[trigger] rgb[i] != #[trigger] ctl[j] by {
        assert(ps[i] != ps[j + 11]);
    }
    assert forall|i: int, j: int| 0 <= i < addr.len() && 0 <= j < ctl.len()
        implies #[trigger] addr[i] != #[trigger] ctl[j] by {
        assert(ps[i + 6] != ps[j + 11]);
    }
    lemma_bits_disjoint(rgb, all_on(6), addr, all_on(5));
    lemma_bits_disjoint(rgb, all_on(6), ctl, all_on(3));
    lemma_bits_disjoint(addr, all_on(5), ctl, all_on(3));
}

} // verus!
