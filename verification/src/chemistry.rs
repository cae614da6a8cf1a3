use vstd::prelude::*;

verus! {

/// A point in space. Each coordinate is carried as an opaque 64-bit word;
/// callers that need numeric coordinates convert to and from their own
/// numeric type outside the library. The library itself only moves these
/// words around, so two positions are equal exactly when their words are.
#[derive(Clone, Copy, Debug, PartialEq, Eq, Structural)]
pub struct Position {
    pub x: u64,
    pub y: u64,
    pub z: u64,
}

/// An atom: an atomic number together with a position.
#[derive(Clone, Copy, Debug, PartialEq, Eq, Structural)]
pub struct Atom3D {
    pub element: usize,
    pub position: Position,
}

/// A rigid-body transform, carried as opaque 64-bit words: a rotation
/// quaternion (w, i, j, k) and a translation vector. The library never
/// evaluates it; applying it to positions is outside work.
#[derive(Clone, Copy, Debug, PartialEq, Eq, Structural)]
pub struct RigidTransform {
    pub rot_w: u64,
    pub rot_i: u64,
    pub rot_j: u64,
    pub rot_k: u64,
    pub trans_x: u64,
    pub trans_y: u64,
    pub trans_z: u64,
}

/// An atomic number is acceptable when it lies in the range of the known
/// chemical elements.
pub open spec fn spec_validated_element_num(n: usize) -> bool {
    1 <= n <= 118
}

/// Decide whether an atomic number denotes a known chemical element.
pub fn validated_element_num(n: usize) -> (r: bool)
    ensures
        r == spec_validated_element_num(n),
{
    1 <= n && n <= 118
}

/// An optional atom is present and valid when it holds an atom whose
/// atomic number denotes a known element. Holes and atoms with an
/// out-of-range atomic number both fail this test.
pub open spec fn atom_valid(a: Option<Atom3D>) -> bool {
    match a {
        Some(atom) => spec_validated_element_num(atom.element),
        None => false,
    }
}

/// The element symbol of an atomic number, as a character sequence;
/// the empty sequence for a number outside the known elements.
pub open spec fn spec_symbol(n: usize) -> Seq<char> {
    match n {
        1 => "H"@,
        2 => "He"@,
        3 => "Li"@,
        4 => "Be"@,
        5 => "B"@,
        6 => "C"@,
        7 => "N"@,
        8 => "O"@,
        9 => "F"@,
        10 => "Ne"@,
        11 => "Na"@,
        12 => "Mg"@,
        13 => "Al"@,
        14 => "Si"@,
        15 => "P"@,
        16 => "S"@,
        17 => "Cl"@,
        18 => "Ar"@,
        19 => "K"@,
        20 => "Ca"@,
        21 => "Sc"@,
        22 => "Ti"@,
        23 => "V"@,
        24 => "Cr"@,
        25 => "Mn"@,
        26 => "Fe"@,
        27 => "Co"@,
        28 => "Ni"@,
        29 => "Cu"@,
        30 => "Zn"@,
        31 => "Ga"@,
        32 => "Ge"@,
        33 => "As"@,
        34 => "Se"@,
        35 => "Br"@,
        36 => "Kr"@,
        37 => "Rb"@,
        38 => "Sr"@,
        39 => "Y"@,
        40 => "Zr"@,
        41 => "Nb"@,
        42 => "Mo"@,
        43 => "Tc"@,
        44 => "Ru"@,
        45 => "Rh"@,
        46 => "Pd"@,
        47 => "Ag"@,
        48 => "Cd"@,
        49 => "In"@,
        50 => "Sn"@,
        51 => "Sb"@,
        52 => "Te"@,
        53 => "I"@,
        54 => "Xe"@,
        55 => "Cs"@,
        56 => "Ba"@,
        57 => "La"@,
        58 => "Ce"@,
        59 => "Pr"@,
        60 => "Nd"@,
        61 => "Pm"@,
        62 => "Sm"@,
        63 => "Eu"@,
        64 => "Gd"@,
        65 => "Tb"@,
        66 => "Dy"@,
        67 => "Ho"@,
        68 => "Er"@,
        69 => "Tm"@,
        70 => "Yb"@,
        71 => "Lu"@,
        72 => "Hf"@,
        73 => "Ta"@,
        74 => "W"@,
        75 => "Re"@,
        76 => "Os"@,
        77 => "Ir"@,
        78 => "Pt"@,
        79 => "Au"@,
        80 => "Hg"@,
        81 => "Tl"@,
        82 => "Pb"@,
        83 => "Bi"@,
        84 => "Po"@,
        85 => "At"@,
        86 => "Rn"@,
        87 => "Fr"@,
        88 => "Ra"@,
        89 => "Ac"@,
        90 => "Th"@,
        91 => "Pa"@,
        92 => "U"@,
        93 => "Np"@,
        94 => "Pu"@,
        95 => "Am"@,
        96 => "Cm"@,
        97 => "Bk"@,
        98 => "Cf"@,
        99 => "Es"@,
        100 => "Fm"@,
        101 => "Md"@,
        102 => "No"@,
        103 => "Lr"@,
        104 => "Rf"@,
        105 => "Db"@,
        106 => "Sg"@,
        107 => "Bh"@,
        108 => "Hs"@,
        109 => "Mt"@,
        110 => "Ds"@,
        111 => "Rg"@,
        112 => "Cn"@,
        113 => "Nh"@,
        114 => "Fl"@,
        115 => "Mc"@,
        116 => "Lv"@,
        117 => "Ts"@,
        118 => "Og"@,
        _ => Seq::empty(),
    }
}

/// The element symbol for an atomic number, or `None` when the number
/// falls outside the range of known elements.
pub fn element_num_to_symbol(n: usize) -> (r: Option<&'static str>)
    ensures
        r.is_some() == spec_validated_element_num(n),
        r matches Some(s) ==> s@ == spec_symbol(n),
{
    let symbol: &'static str = match n {
        1 => "H",
        2 => "He",
        3 => "Li",
        4 => "Be",
        5 => "B",
        6 => "C",
        7 => "N",
        8 => "O",
        9 => "F",
        10 => "Ne",
        11 => "Na",
        12 => "Mg",
        13 => "Al",
        14 => "Si",
        15 => "P",
        16 => "S",
        17 => "Cl",
        18 => "Ar",
        19 => "K",
        20 => "Ca",
        21 => "Sc",
        22 => "Ti",
        23 => "V",
        24 => "Cr",
        25 => "Mn",
        26 => "Fe",
        27 => "Co",
        28 => "Ni",
        29 => "Cu",
        30 => "Zn",
        31 => "Ga",
        32 => "Ge",
        33 => "As",
        34 => "Se",
        35 => "Br",
        36 => "Kr",
        37 => "Rb",
        38 => "Sr",
        39 => "Y",
        40 => "Zr",
        41 => "Nb",
        42 => "Mo",
        43 => "Tc",
        44 => "Ru",
        45 => "Rh",
        46 => "Pd",
        47 => "Ag",
        48 => "Cd",
        49 => "In",
        50 => "Sn",
        51 => "Sb",
        52 => "Te",
        53 => "I",
        54 => "Xe",
        55 => "Cs",
        56 => "Ba",
        57 => "La",
        58 => "Ce",
        59 => "Pr",
        60 => "Nd",
        61 => "Pm",
        62 => "Sm",
        63 => "Eu",
        64 => "Gd",
        65 => "Tb",
        66 => "Dy",
        67 => "Ho",
        68 => "Er",
        69 => "Tm",
        70 => "Yb",
        71 => "Lu",
        72 => "Hf",
        73 => "Ta",
        74 => "W",
        75 => "Re",
        76 => "Os",
        77 => "Ir",
        78 => "Pt",
        79 => "Au",
        80 => "Hg",
        81 => "Tl",
        82 => "Pb",
        83 => "Bi",
        84 => "Po",
        85 => "At",
        86 => "Rn",
        87 => "Fr",
        88 => "Ra",
        89 => "Ac",
        90 => "Th",
        91 => "Pa",
        92 => "U",
        93 => "Np",
        94 => "Pu",
        95 => "Am",
        96 => "Cm",
        97 => "Bk",
        98 => "Cf",
        99 => "Es",
        100 => "Fm",
        101 => "Md",
        102 => "No",
        103 => "Lr",
        104 => "Rf",
        105 => "Db",
        106 => "Sg",
        107 => "Bh",
        108 => "Hs",
        109 => "Mt",
        110 => "Ds",
        111 => "Rg",
        112 => "Cn",
        113 => "Nh",
        114 => "Fl",
        115 => "Mc",
        116 => "Lv",
        117 => "Ts",
        118 => "Og",
        _ => "",
    };
    if 1 <= n && n <= 118 {
        Some(symbol)
    } else {
        None
    }
}

} // verus!
