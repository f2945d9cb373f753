use vstd::prelude::*;
use crate::board_repr::bit_board::BitBoard;
use crate::board_repr::square::Square;

verus! {

/// The multiplier that hashes the blockers of a rook on the square with index `s`.
pub open spec fn rook_magic_of(s: int) -> u64 {
    if s == 0 {
        0x4080005028400182
    } else if s == 1 {
        0x20c000c01000a001
    } else if s == 2 {
        0x0200100880402201
    } else if s == 3 {
        0x0280080080900084
    } else if s == 4 {
        0x0600200810820004
    } else if s == 5 {
        0x0900028100080400
    } else if s == 6 {
        0x6100008100440200
    } else if s == 7 {
        0x0300020220458900
    } else if s == 8 {
        0x811a800230804000
    } else if s == 9 {
        0x0001002040110080
    } else if s == 10 {
        0x1000808010002000
    } else if s == 11 {
        0x0502001040240a00
    } else if s == 12 {
        0x0191001008010105
    } else if s == 13 {
        0x1c40800200040080
    } else if s == 14 {
        0x008e001102000854
    } else if s == 15 {
        0x000100084a208100
    } else if s == 16 {
        0x0040008000803044
    } else if s == 17 {
        0x09008a8020004000
    } else if s == 18 {
        0x2080410011002008
    } else if s == 19 {
        0x4000848008001000
    } else if s == 20 {
        0x8108808008000400
    } else if s == 21 {
        0x8121010008040002
    } else if s == 22 {
        0x8081040008500201
    } else if s == 23 {
        0x0084020020840041
    } else if s == 24 {
        0x002080208000400e
    } else if s == 25 {
        0x2100200040005008
    } else if s == 26 {
        0x0000200080100084
    } else if s == 27 {
        0x2c00200900100100
    } else if s == 28 {
        0x1014000480480081
    } else if s == 29 {
        0x0020040080800200
    } else if s == 30 {
        0x4000500400410882
    } else if s == 31 {
        0x00000c0200009049
    } else if s == 32 {
        0x0000400080800024
    } else if s == 33 {
        0x2000802002804000
    } else if s == 34 {
        0x0800104101002000
    } else if s == 35 {
        0x0408008008801004
    } else if s == 36 {
        0x1080800800800400
    } else if s == 37 {
        0x1600800200800400
    } else if s == 38 {
        0x0001000411003200
    } else if s == 39 {
        0x2d0000805a000401
    } else if s == 40 {
        0x0400800041010020
    } else if s == 41 {
        0x0900500020014000
    } else if s == 42 {
        0x101000a80400a000
    } else if s == 43 {
        0x1000100021010008
    } else if s == 44 {
        0x1800050008010010
    } else if s == 45 {
        0x4002008004008002
    } else if s == 46 {
        0x0802000184020048
    } else if s == 47 {
        0x1000408041020004
    } else if s == 48 {
        0x00012300d2008200
    } else if s == 49 {
        0x8000350080420200
    } else if s == 50 {
        0x0943081020004300
    } else if s == 51 {
        0x1012100068008280
    } else if s == 52 {
        0x0800080004008080
    } else if s == 53 {
        0x4022008002040080
    } else if s == 54 {
        0x5001000402000100
    } else if s == 55 {
        0x8190093080440200
    } else if s == 56 {
        0x0000800021081041
    } else if s == 57 {
        0x0008210040001081
    } else if s == 58 {
        0x0024420020120882
    } else if s == 59 {
        0x0401000608201001
    } else if s == 60 {
        0x0812000420900902
    } else if s == 61 {
        0x0081000804000201
    } else if s == 62 {
        0x0100082201009004
    } else {
        0x0000004021040082
    }
}

/// The multiplier that hashes the blockers of a bishop on the square with index `s`.
pub open spec fn bishop_magic_of(s: int) -> u64 {
    if s == 0 {
        0xac04204084008088
    } else if s == 1 {
        0x0004180861002004
    } else if s == 2 {
        0x0084080081146200
    } else if s == 3 {
        0x0104042080200904
    } else if s == 4 {
        0x00e40308000020c0
    } else if s == 5 {
        0x000245104002a144
    } else if s == 6 {
        0x00104608202842c0
    } else if s == 7 {
        0x1001008084014080
    } else if s == 8 {
        0x0080919002008408
    } else if s == 9 {
        0x8005500198030143
    } else if s == 10 {
        0x8800880091020000
    } else if s == 11 {
        0x8000080a00200080
    } else if s == 12 {
        0x008004042008a002
    } else if s == 13 {
        0x24050710080c0082
    } else if s == 14 {
        0x2800410119104000
    } else if s == 15 {
        0x0280304200904808
    } else if s == 16 {
        0x0509002021010200
    } else if s == 17 {
        0x013011c481084100
    } else if s == 18 {
        0x4201091009002100
    } else if s == 19 {
        0x080800888a004280
    } else if s == 20 {
        0x0004800400a04080
    } else if s == 21 {
        0x0001004200424202
    } else if s == 22 {
        0x9180808210900800
    } else if s == 23 {
        0x000208008a8c0900
    } else if s == 24 {
        0x9422100042041820
    } else if s == 25 {
        0x2448146028090820
    } else if s == 26 {
        0x8000410210010201
    } else if s == 27 {
        0xc0c0040024410220
    } else if s == 28 {
        0x0024040014410046
    } else if s == 29 {
        0x000041000080a000
    } else if s == 30 {
        0x0102089004008832
    } else if s == 31 {
        0x2044034f18260220
    } else if s == 32 {
        0x400221442a600810
    } else if s == 33 {
        0x0001100800110100
    } else if s == 34 {
        0x0105841004010440
    } else if s == 35 {
        0x0004202020080080
    } else if s == 36 {
        0x2140048200010104
    } else if s == 37 {
        0x8220440100022084
    } else if s == 38 {
        0x0409820680020804
    } else if s == 39 {
        0x0002220a02002080
    } else if s == 40 {
        0x0044010940040828
    } else if s == 41 {
        0x0400882108001000
    } else if s == 42 {
        0x0420201410010200
    } else if s == 43 {
        0x80008c4010408200
    } else if s == 44 {
        0x0000101020801010
    } else if s == 45 {
        0x2002140802000420
    } else if s == 46 {
        0x0010020081200400
    } else if s == 47 {
        0x4010921208201142
    } else if s == 48 {
        0x804100d004200201
    } else if s == 49 {
        0x40004528080a0100
    } else if s == 50 {
        0x44080a0100881008
    } else if s == 51 {
        0x00109a0146081000
    } else if s == 52 {
        0x0008004042820021
    } else if s == 53 {
        0x00004a3010048a20
    } else if s == 54 {
        0xc048901102040001
    } else if s == 55 {
        0x0611140800404800
    } else if s == 56 {
        0x0340402090082000
    } else if s == 57 {
        0x00b0023088143002
    } else if s == 58 {
        0x0041200040441001
    } else if s == 59 {
        0x0004140830840400
    } else if s == 60 {
        0x0800018864450400
    } else if s == 61 {
        0x0000000861080880
    } else if s == 62 {
        0x00300508102c0480
    } else {
        0x2104110202121200
    }
}

/// The multiplier that hashes the blockers of a rook on `square`.
pub fn rook_magic(square: Square) -> (r: u64)
    ensures
        r == rook_magic_of(square.ord()),
{
    match square.index() {
        0 => 0x4080005028400182,
        1 => 0x20c000c01000a001,
        2 => 0x0200100880402201,
        3 => 0x0280080080900084,
        4 => 0x0600200810820004,
        5 => 0x0900028100080400,
        6 => 0x6100008100440200,
        7 => 0x0300020220458900,
        8 => 0x811a800230804000,
        9 => 0x0001002040110080,
        10 => 0x1000808010002000,
        11 => 0x0502001040240a00,
        12 => 0x0191001008010105,
        13 => 0x1c40800200040080,
        14 => 0x008e001102000854,
        15 => 0x000100084a208100,
        16 => 0x0040008000803044,
        17 => 0x09008a8020004000,
        18 => 0x2080410011002008,
        19 => 0x4000848008001000,
        20 => 0x8108808008000400,
        21 => 0x8121010008040002,
        22 => 0x8081040008500201,
        23 => 0x0084020020840041,
        24 => 0x002080208000400e,
        25 => 0x2100200040005008,
        26 => 0x0000200080100084,
        27 => 0x2c00200900100100,
        28 => 0x1014000480480081,
        29 => 0x0020040080800200,
        30 => 0x4000500400410882,
        31 => 0x00000c0200009049,
        32 => 0x0000400080800024,
        33 => 0x2000802002804000,
        34 => 0x0800104101002000,
        35 => 0x0408008008801004,
        36 => 0x1080800800800400,
        37 => 0x1600800200800400,
        38 => 0x0001000411003200,
        39 => 0x2d0000805a000401,
        40 => 0x0400800041010020,
        41 => 0x0900500020014000,
        42 => 0x101000a80400a000,
        43 => 0x1000100021010008,
        44 => 0x1800050008010010,
        45 => 0x4002008004008002,
        46 => 0x0802000184020048,
        47 => 0x1000408041020004,
        48 => 0x00012300d2008200,
        49 => 0x8000350080420200,
        50 => 0x0943081020004300,
        51 => 0x1012100068008280,
        52 => 0x0800080004008080,
        53 => 0x4022008002040080,
        54 => 0x5001000402000100,
        55 => 0x8190093080440200,
        56 => 0x0000800021081041,
        57 => 0x0008210040001081,
        58 => 0x0024420020120882,
        59 => 0x0401000608201001,
        60 => 0x0812000420900902,
        61 => 0x0081000804000201,
        62 => 0x0100082201009004,
        _ => 0x0000004021040082,
    }
}

/// The multiplier that hashes the blockers of a bishop on `square`.
pub fn bishop_magic(square: Square) -> (r: u64)
    ensures
        r == bishop_magic_of(square.ord()),
{
    match square.index() {
        0 => 0xac04204084008088,
        1 => 0x0004180861002004,
        2 => 0x0084080081146200,
        3 => 0x0104042080200904,
        4 => 0x00e40308000020c0,
        5 => 0x000245104002a144,
        6 => 0x00104608202842c0,
        7 => 0x1001008084014080,
        8 => 0x0080919002008408,
        9 => 0x8005500198030143,
        10 => 0x8800880091020000,
        11 => 0x8000080a00200080,
        12 => 0x008004042008a002,
        13 => 0x24050710080c0082,
        14 => 0x2800410119104000,
        15 => 0x0280304200904808,
        16 => 0x0509002021010200,
        17 => 0x013011c481084100,
        18 => 0x4201091009002100,
        19 => 0x080800888a004280,
        20 => 0x0004800400a04080,
        21 => 0x0001004200424202,
        22 => 0x9180808210900800,
        23 => 0x000208008a8c0900,
        24 => 0x9422100042041820,
        25 => 0x2448146028090820,
        26 => 0x8000410210010201,
        27 => 0xc0c0040024410220,
        28 => 0x0024040014410046,
        29 => 0x000041000080a000,
        30 => 0x0102089004008832,
        31 => 0x2044034f18260220,
        32 => 0x400221442a600810,
        33 => 0x0001100800110100,
        34 => 0x0105841004010440,
        35 => 0x0004202020080080,
        36 => 0x2140048200010104,
        37 => 0x8220440100022084,
        38 => 0x0409820680020804,
        39 => 0x0002220a02002080,
        40 => 0x0044010940040828,
        41 => 0x0400882108001000,
        42 => 0x0420201410010200,
        43 => 0x80008c4010408200,
        44 => 0x0000101020801010,
        45 => 0x2002140802000420,
        46 => 0x0010020081200400,
        47 => 0x4010921208201142,
        48 => 0x804100d004200201,
        49 => 0x40004528080a0100,
        50 => 0x44080a0100881008,
        51 => 0x00109a0146081000,
        52 => 0x0008004042820021,
        53 => 0x00004a3010048a20,
        54 => 0xc048901102040001,
        55 => 0x0611140800404800,
        56 => 0x0340402090082000,
        57 => 0x00b0023088143002,
        58 => 0x0041200040441001,
        59 => 0x0004140830840400,
        60 => 0x0800018864450400,
        61 => 0x0000000861080880,
        62 => 0x00300508102c0480,
        _ => 0x2104110202121200,
    }
}

/// The place of a set of blockers inside the part of a table that belongs
/// to one square: the set times the multiplier, cut to 64 bits, shifted down.
pub open spec fn hash_of(sub: u64, magic: u64, shift: u32) -> u64 {
    sub.wrapping_mul(magic) >> (shift as u64)
}

proof fn lemma_hash_bound(x: u64, shift: u64)
    by (bit_vector)
    requires
        48 <= shift <= 63,
    ensures
        (x >> shift) < (1u64 << ((64 - shift) as u64)),
        (1u64 << ((64 - shift) as u64)) <= 0x10000,
{
}

proof fn lemma_span_low(shift: u64)
    by (bit_vector)
    requires
        48 <= shift <= 63,
    ensures
        (1u64 << ((64 - shift) as u64)) >= 2,
{
}

/// How the blockers of a slider on one square are mapped into the shared
/// attack table: cut to the mask, multiplied, shifted, and moved by the
/// offset at which the square's part of the table begins.
#[derive(Clone, Copy, Debug)]
pub struct Magic {
    pub mask: BitBoard,
    pub magic: u64,
    pub shift: u32,
    pub offset: usize,
}

impl Magic {
    /// The number of table entries that belong to the square.
    pub open spec fn span(self) -> int {
        (1u64 << ((64 - self.shift) as u64)) as int
    }

    /// The shift leaves between one and sixteen bits, and the square's part
    /// of the table ends below 2^28.
    pub open spec fn wf(self) -> bool {
        48 <= self.shift <= 63 && self.offset + self.span() <= 0x1000_0000
    }

    /// The table index for a set of blockers.
    pub open spec fn slot(self, blockers: u64) -> int {
        hash_of(blockers & self.mask.0, self.magic, self.shift) as int + self.offset
    }

    /// A square's part of the table has between 2 and 2^16 entries.
    pub proof fn lemma_span_range(self)
        requires
            48 <= self.shift <= 63,
        ensures
            2 <= self.span() <= 0x10000,
    {
        lemma_hash_bound(0, self.shift as u64);
        lemma_span_low(self.shift as u64);
    }

    /// A slot lies inside the square's part of the table.
    pub proof fn lemma_slot_range(self, blockers: u64)
        requires
            self.wf(),
        ensures
            self.offset <= self.slot(blockers) < self.offset + self.span(),
            2 <= self.span() <= 0x10000,
    {
        lemma_hash_bound((blockers & self.mask.0).wrapping_mul(self.magic), self.shift as u64);
        self.lemma_span_range();
    }

    pub fn index(&self, blocker: BitBoard) -> (r: usize)
        requires
            self.wf(),
        ensures
            r == self.slot(blocker.0),
            self.offset <= r < self.offset + self.span(),
    {
        proof {
            self.lemma_slot_range(blocker.0);
        }
        let h: u64 = (blocker.0 & self.mask.0).wrapping_mul(self.magic) >> self.shift;
        h as usize + self.offset
    }
}

} // verus!
