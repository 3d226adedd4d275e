//! One grid cell: a material together with its physical attributes.

use vstd::prelude::*;

verus! {

/// The material of a cell, without its attributes.
#[derive(Clone, Copy, Debug, PartialEq, Eq, Structural)]
pub enum Material {
    Empty,
    Sand,
    Dirt,
    Water,
    Salt,
    Iron,
}

impl Material {
    /// The material that follows this one in the painting cycle
    /// Empty, Sand, Dirt, Water, Salt, Iron, Empty.
    pub open spec fn successor(self) -> Material {
        match self {
            Material::Empty => Material::Sand,
            Material::Sand => Material::Dirt,
            Material::Dirt => Material::Water,
            Material::Water => Material::Salt,
            Material::Salt => Material::Iron,
            Material::Iron => Material::Empty,
        }
    }
}

/// The value held by one grid location.
#[derive(Clone, Copy, Debug, PartialEq, Eq, Structural)]
pub enum Dot {
    Empty { temp: i16 },
    Sand { temp: i16 },
    Dirt { temp: i16 },
    Water { temp: i16, salinity: u16 },
    Salt { temp: i16 },
    Iron { temp: i16 },
}

impl Default for Dot {
    fn default() -> (dot: Dot)
        ensures
            dot == (Dot::Empty { temp: 0 }),
    {
        Dot::Empty { temp: 0 }
    }
}

impl Dot {
    /// The material of this cell.
    pub open spec fn material(self) -> Material {
        match self {
            Dot::Empty { .. } => Material::Empty,
            Dot::Sand { .. } => Material::Sand,
            Dot::Dirt { .. } => Material::Dirt,
            Dot::Water { .. } => Material::Water,
            Dot::Salt { .. } => Material::Salt,
            Dot::Iron { .. } => Material::Iron,
        }
    }

    /// The temperature that every variant carries.
    pub open spec fn temperature(self) -> i16 {
        match self {
            Dot::Empty { temp } => temp,
            Dot::Sand { temp } => temp,
            Dot::Dirt { temp } => temp,
            Dot::Water { temp, .. } => temp,
            Dot::Salt { temp } => temp,
            Dot::Iron { temp } => temp,
        }
    }

    /// The dissolved salt of a Water cell; 0 for every other material.
    pub open spec fn salt_content(self) -> u16 {
        match self {
            Dot::Water { salinity, .. } => salinity,
            _ => 0,
        }
    }

    /// The cell of the given material with the given attributes. Salinity is
    /// kept by Water only.
    pub open spec fn make(material: Material, temp: i16, salinity: u16) -> Dot {
        match material {
            Material::Empty => Dot::Empty { temp },
            Material::Sand => Dot::Sand { temp },
            Material::Dirt => Dot::Dirt { temp },
            Material::Water => Dot::Water { temp, salinity },
            Material::Salt => Dot::Salt { temp },
            Material::Iron => Dot::Iron { temp },
        }
    }

    /// The next material of the painting cycle at the same temperature; a
    /// cell that becomes Water starts without salt.
    pub open spec fn successor(self) -> Dot {
        Dot::make(self.material().successor(), self.temperature(), 0)
    }

    /// The painting cycle has six steps: the sixth successor of a cell has
    /// its material and its temperature again.
    pub proof fn lemma_cycle_closes(self)
        ensures
            self.successor().successor().successor().successor().successor().successor().material()
                == self.material(),
            self.successor().successor().successor().successor().successor().successor().temperature()
                == self.temperature(),
    {
    }

    /// Whether gravity moves this cell: all but Empty and Iron.
    pub open spec fn fallable(&self) -> bool {
        !(self is Empty) && !(self is Iron)
    }

    /// Whether this cell flows sideways when it cannot fall: Water only.
    pub open spec fn flowable(&self) -> bool {
        self is Water
    }

    /// Whether anything can push this cell out of its slot: Empty and Water.
    pub open spec fn displaceable(&self) -> bool {
        self is Empty || self is Water
    }

    /// Whether `other` may push this cell out of its slot: anything but
    /// Empty displaces Empty, and anything but Water and Empty displaces
    /// Water.
    pub open spec fn displaceable_by(&self, other: &Dot) -> bool {
        ||| self is Empty && !(other is Empty)
        ||| self is Water && !(other is Water) && !(other is Empty)
    }

    /// Whether this cell is Empty.
    pub open spec fn empty(&self) -> bool {
        self is Empty
    }

    /// What the diffusion pass can make of this cell: it keeps its
    /// temperature and its material, but that Salt may have become Empty.
    /// So only the salinity of Water changes otherwise.
    pub open spec fn diffuses_into(self, after: Dot) -> bool {
        &&& after.temperature() == self.temperature()
        &&& after.material() == self.material() || (self is Salt && after is Empty)
    }

    /// The green channel of Water: 255 less the salinity, never below 0.
    pub open spec fn water_green(salinity: u16) -> u8 {
        if salinity >= 255 {
            0u8
        } else {
            (255 - salinity) as u8
        }
    }

    /// The four bytes red, green, blue, alpha in which this cell is shown.
    pub open spec fn rgba(self) -> Seq<u8> {
        match self {
            Dot::Empty { .. } => seq![0x00u8, 0x00u8, 0x00u8, 0xFFu8],
            Dot::Sand { .. } => seq![0xEDu8, 0xC9u8, 0xAFu8, 0xFFu8],
            Dot::Dirt { .. } => seq![0xBDu8, 0x99u8, 0xCFu8, 0xFFu8],
            Dot::Water { salinity, .. } => seq![0x00u8, Dot::water_green(salinity), 0xFFu8, 0xFFu8],
            Dot::Salt { .. } => seq![0xFFu8, 0xFFu8, 0xFFu8, 0xFFu8],
            Dot::Iron { .. } => seq![0xCCu8, 0xCCu8, 0xCCu8, 0xFFu8],
        }
    }

    /// The cell that follows this one in the painting cycle.
    pub fn next(&self) -> (dot: Dot)
        ensures
            dot == self.successor(),
    {
        match self {
            Dot::Empty { temp: t } => Dot::Sand { temp: *t },
            Dot::Sand { temp: t } => Dot::Dirt { temp: *t },
            Dot::Dirt { temp: t } => Dot::Water { temp: *t, salinity: 0 },
            Dot::Water { temp: t, salinity: _ } => Dot::Salt { temp: *t },
            Dot::Salt { temp: t } => Dot::Iron { temp: *t },
            Dot::Iron { temp: t } => Dot::Empty { temp: *t },
        }
    }

    #[verifier::when_used_as_spec(fallable)]
    pub fn is_fallable(&self) -> (yes: bool)
        ensures
            yes == self.fallable(),
    {
        match self {
            Dot::Empty { temp: _ } | Dot::Iron { temp: _ } => false,
            _ => true,
        }
    }

    #[verifier::when_used_as_spec(flowable)]
    pub fn is_flowable(&self) -> (yes: bool)
        ensures
            yes == self.flowable(),
    {
        match self {
            Dot::Water { temp: _, salinity: _ } => true,
            _ => false,
        }
    }

    #[verifier::when_used_as_spec(displaceable)]
    pub fn is_displaceable(&self) -> (yes: bool)
        ensures
            yes == self.displaceable(),
    {
        match self {
            Dot::Empty { temp: _ } | Dot::Water { temp: _, salinity: _ } => true,
            _ => false,
        }
    }

    #[verifier::when_used_as_spec(displaceable_by)]
    pub fn is_displaceable_by(&self, other: &Dot) -> (yes: bool)
        ensures
            yes == self.displaceable_by(other),
    {
        if !self.is_displaceable() {
            return false;
        }
        match (self, other) {
            (Dot::Empty { temp: _ }, Dot::Empty { temp: _ }) => false,
            (Dot::Empty { temp: _ }, _) => true,
            (Dot::Water { temp: _, salinity: _ }, Dot::Water { temp: _, salinity: _ }) => false,
            (Dot::Water { temp: _, salinity: _ }, Dot::Empty { temp: _ }) => false,
            (Dot::Water { temp: _, salinity: _ }, _) => true,
            _ => false,
        }
    }

    #[verifier::when_used_as_spec(empty)]
    pub fn is_empty(&self) -> (yes: bool)
        ensures
            yes == self.empty(),
    {
        match self {
            Dot::Empty { temp: _ } => true,
            _ => false,
        }
    }

    /// The colour of this cell as red, green, blue, alpha.
    pub fn color(&self) -> (c: [u8; 4])
        ensures
            c@ == self.rgba(),
    {
        let c: [u8; 4] = match self {
            Dot::Empty { temp: _ } => [0x00, 0x00, 0x00, 0xFF],
            Dot::Sand { temp: _ } => [0xED, 0xC9, 0xAF, 0xFF],
            Dot::Dirt { temp: _ } => [0xBD, 0x99, 0xCF, 0xFF],
            Dot::Water { temp: _, salinity: s } => {
                let green: u8 = if *s >= 255 { 0 } else { (255 - *s) as u8 };
                [0x00, green, 0xFF, 0xFF]
            },
            Dot::Salt { temp: _ } => [0xFF, 0xFF, 0xFF, 0xFF],
            Dot::Iron { temp: _ } => [0xCC, 0xCC, 0xCC, 0xFF],
        };
        assert(c@ =~= self.rgba());
        c
    }

    /// Writes the colour of this cell into the four bytes of `frame`.
    pub fn draw(&self, frame: &mut [u8])
        requires
            old(frame)@.len() == 4,
        ensures
            final(frame)@ == self.rgba(),
    {
        let c = self.color();
        frame[0] = c[0];
        frame[1] = c[1];
        frame[2] = c[2];
        frame[3] = c[3];
        assert(frame@ =~= self.rgba());
    }
}

} // verus!
