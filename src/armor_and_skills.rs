use vstd::prelude::*;

verus! {

/// The hunter's gender; armor pieces may be restricted to one of them.
#[derive(Debug, Clone, Copy, PartialEq, Eq, Structural)]
pub enum Gender {
    Female,
    Male,
    Neutral,
}

impl Default for Gender {
    fn default() -> (r: Self)
        ensures
            r == Gender::Neutral,
    {
        Gender::Neutral
    }
}

/// Catalog entry of a skill.
struct SkillDesc {
    limit: u8,
    jewel_size: Option<u8>,
}

/// A skill that armor pieces and jewels grant.
#[derive(Debug, Clone, Copy, PartialEq, Eq, Hash, Structural)]
pub enum Skill {
    Botanist,
    DefenseBoost,
    ItemProlonger,
    CriticalEye,
    Fortify,
    PoisonAttack,
    RecoilDown,
    QuickSheath,
    FireAttack,
    IceAttack,
    WaterAttack,
    ProtectivePolish,
    StaminaThief,
    Partbreaker,
    Mushroomancer,
    MaximumMight,
    MarathonRunner,
    PeakPerformance,
    AttackBoost,
    OffensiveGuard,
    Focus,
    RecoveryUp,
    NormalRapidUp,
    SpeedEating,
    Windproof,
    Bludgeoner,
    AffinitySliding,
    WideRange,
    StunResistance,
    LoadShells,
    ParalysisAttack,
    PierceUp,
    AimBooster,
    SleepAttack,
    BlightResistance,
    CriticalDraw,
    JumpMaster,
    Constitution,
    FreeMeal,
    GoodLuck,
    RazorSharp,
    SpareShot,
    WirebugWhisperer,
    Resentment,
    Handicraft,
    FlinchFree,
    RapidMorph,
    LatentPower,
    WeaknessExploit,
    Resuscitate,
    EvadeWindow,
    Slugger,
    SpecialAmmoBoost,
    Agitator,
    DevineBlessing,
    Geologist,
    HungerResistance,
    CriticalElement,
    EvadeExtender,
    DragonAttack,
    Heroics,
    SleepResistance,
    ParalysisResistance,
    PoisonResistance,
    WindAlignment,
    SpreadUp,
    ReloadSpeed,
    ThunderAlignment,
    Guard,
    StaminaSurge,
    Earplugs,
    BowChargePlus,
    BlastResistance,
    AmmoUp,
    LeapofFaith,
    DragonResistance,
    WaterResistance,
    DivineBlessing,
    RecoverySpeed,
    SpeedSharpening,
    MuckResistance,
    PowerProlonger,
    TremorResistance,
    HellfireCloak,
    BubblyDance,
    PunishingDraw,
    WallRunner,
    GuardUp,
    CriticalBoost,
    MindsEye,
    BlastAttack,
    MasterMounter,
    Counterstrike,
    ThunderAttack,
    Artillery,
    Bombardier,
    CaptureMaster,
    Diversion,
    FireResistance,
    HornMaestro,
    Ballistics,
    KushalaBlessing,
    ChameleosBlessing,
    TeostraBlessing,
    MastersTouch,
    RapidFireUp,
    CarvingPro,
}

impl Skill {
    /// Size of the jewel that grants one level of this skill, if such a jewel exists.
    pub open spec fn jewel_size_of(self) -> Option<u8> {
        match self {
            Skill::Botanist
            | Skill::DefenseBoost
            | Skill::PoisonAttack
            | Skill::RecoilDown
            | Skill::FireAttack
            | Skill::IceAttack
            | Skill::WaterAttack
            | Skill::StaminaThief
            | Skill::Windproof
            | Skill::AffinitySliding
            | Skill::StunResistance
            | Skill::ParalysisAttack
            | Skill::FreeMeal
            | Skill::FlinchFree
            | Skill::Geologist
            | Skill::HungerResistance
            | Skill::DragonAttack
            | Skill::SleepResistance
            | Skill::ParalysisResistance
            | Skill::PoisonResistance
            | Skill::ReloadSpeed
            | Skill::BlastResistance
            | Skill::LeapofFaith
            | Skill::DragonResistance
            | Skill::WaterResistance
            | Skill::RecoverySpeed
            | Skill::SpeedSharpening
            | Skill::MuckResistance
            | Skill::ThunderAttack
            | Skill::Bombardier
            | Skill::Diversion
            | Skill::FireResistance
            | Skill::HornMaestro
            | Skill::CarvingPro => Some(1u8),
            Skill::ItemProlonger
            | Skill::CriticalEye
            | Skill::Fortify
            | Skill::QuickSheath
            | Skill::ProtectivePolish
            | Skill::Partbreaker
            | Skill::MaximumMight
            | Skill::MarathonRunner
            | Skill::PeakPerformance
            | Skill::AttackBoost
            | Skill::Focus
            | Skill::RecoveryUp
            | Skill::SpeedEating
            | Skill::Bludgeoner
            | Skill::WideRange
            | Skill::LoadShells
            | Skill::AimBooster
            | Skill::SleepAttack
            | Skill::BlightResistance
            | Skill::Constitution
            | Skill::RazorSharp
            | Skill::SpareShot
            | Skill::WirebugWhisperer
            | Skill::Resentment
            | Skill::RapidMorph
            | Skill::LatentPower
            | Skill::WeaknessExploit
            | Skill::Resuscitate
            | Skill::EvadeWindow
            | Skill::Slugger
            | Skill::SpecialAmmoBoost
            | Skill::Agitator
            | Skill::DevineBlessing
            | Skill::CriticalElement
            | Skill::EvadeExtender
            | Skill::Heroics
            | Skill::Guard
            | Skill::StaminaSurge
            | Skill::DivineBlessing
            | Skill::PowerProlonger
            | Skill::TremorResistance
            | Skill::BubblyDance
            | Skill::PunishingDraw
            | Skill::WallRunner
            | Skill::GuardUp
            | Skill::CriticalBoost
            | Skill::MindsEye
            | Skill::BlastAttack
            | Skill::MasterMounter
            | Skill::Counterstrike
            | Skill::Artillery
            | Skill::Ballistics
            | Skill::MastersTouch => Some(2u8),
            Skill::Mushroomancer
            | Skill::OffensiveGuard
            | Skill::NormalRapidUp
            | Skill::PierceUp
            | Skill::CriticalDraw
            | Skill::JumpMaster
            | Skill::GoodLuck
            | Skill::Handicraft
            | Skill::SpreadUp
            | Skill::Earplugs
            | Skill::AmmoUp
            | Skill::HellfireCloak
            | Skill::RapidFireUp => Some(3u8),
            Skill::WindAlignment
            | Skill::ThunderAlignment
            | Skill::BowChargePlus
            | Skill::CaptureMaster
            | Skill::KushalaBlessing
            | Skill::ChameleosBlessing
            | Skill::TeostraBlessing => None,
        }
    }

    /// Highest level of this skill that still has an effect.
    pub open spec fn limit_of(self) -> u8 {
        match self {
            Skill::Botanist
            | Skill::HellfireCloak
            | Skill::KushalaBlessing
            | Skill::ChameleosBlessing
            | Skill::TeostraBlessing => 4u8,
            Skill::DefenseBoost
            | Skill::CriticalEye
            | Skill::AttackBoost => 7u8,
            Skill::ItemProlonger
            | Skill::PoisonAttack
            | Skill::RecoilDown
            | Skill::QuickSheath
            | Skill::ProtectivePolish
            | Skill::StaminaThief
            | Skill::Partbreaker
            | Skill::Mushroomancer
            | Skill::MaximumMight
            | Skill::MarathonRunner
            | Skill::PeakPerformance
            | Skill::OffensiveGuard
            | Skill::Focus
            | Skill::RecoveryUp
            | Skill::NormalRapidUp
            | Skill::SpeedEating
            | Skill::Windproof
            | Skill::Bludgeoner
            | Skill::StunResistance
            | Skill::ParalysisAttack
            | Skill::PierceUp
            | Skill::AimBooster
            | Skill::SleepAttack
            | Skill::BlightResistance
            | Skill::CriticalDraw
            | Skill::FreeMeal
            | Skill::GoodLuck
            | Skill::RazorSharp
            | Skill::SpareShot
            | Skill::WirebugWhisperer
            | Skill::Resentment
            | Skill::FlinchFree
            | Skill::RapidMorph
            | Skill::WeaknessExploit
            | Skill::Resuscitate
            | Skill::EvadeWindow
            | Skill::Slugger
            | Skill::DevineBlessing
            | Skill::Geologist
            | Skill::HungerResistance
            | Skill::CriticalElement
            | Skill::EvadeExtender
            | Skill::SleepResistance
            | Skill::ParalysisResistance
            | Skill::PoisonResistance
            | Skill::WindAlignment
            | Skill::SpreadUp
            | Skill::ReloadSpeed
            | Skill::StaminaSurge
            | Skill::BlastResistance
            | Skill::AmmoUp
            | Skill::DragonResistance
            | Skill::WaterResistance
            | Skill::DivineBlessing
            | Skill::RecoverySpeed
            | Skill::SpeedSharpening
            | Skill::PowerProlonger
            | Skill::TremorResistance
            | Skill::BubblyDance
            | Skill::PunishingDraw
            | Skill::WallRunner
            | Skill::GuardUp
            | Skill::CriticalBoost
            | Skill::MindsEye
            | Skill::BlastAttack
            | Skill::Counterstrike
            | Skill::Artillery
            | Skill::Bombardier
            | Skill::FireResistance
            | Skill::Ballistics
            | Skill::MastersTouch
            | Skill::RapidFireUp => 3u8,
            Skill::Fortify
            | Skill::AffinitySliding
            | Skill::JumpMaster
            | Skill::BowChargePlus
            | Skill::LeapofFaith
            | Skill::MasterMounter
            | Skill::CaptureMaster
            | Skill::Diversion
            | Skill::HornMaestro
            | Skill::CarvingPro => 1u8,
            Skill::FireAttack
            | Skill::IceAttack
            | Skill::WaterAttack
            | Skill::WideRange
            | Skill::Constitution
            | Skill::Handicraft
            | Skill::LatentPower
            | Skill::Agitator
            | Skill::DragonAttack
            | Skill::Heroics
            | Skill::ThunderAlignment
            | Skill::Guard
            | Skill::Earplugs
            | Skill::ThunderAttack => 5u8,
            Skill::LoadShells
            | Skill::SpecialAmmoBoost
            | Skill::MuckResistance => 2u8,
        }
    }

    fn get_skill_desc(&self) -> (r: SkillDesc)
        ensures
            r.limit == self.limit_of(),
            r.jewel_size == self.jewel_size_of(),
    {
        match self {
            Skill::Botanist => SkillDesc { limit: 4, jewel_size: Some(1) },
            Skill::DefenseBoost => SkillDesc { limit: 7, jewel_size: Some(1) },
            Skill::ItemProlonger => SkillDesc { limit: 3, jewel_size: Some(2) },
            Skill::CriticalEye => SkillDesc { limit: 7, jewel_size: Some(2) },
            Skill::Fortify => SkillDesc { limit: 1, jewel_size: Some(2) },
            Skill::PoisonAttack => SkillDesc { limit: 3, jewel_size: Some(1) },
            Skill::RecoilDown => SkillDesc { limit: 3, jewel_size: Some(1) },
            Skill::QuickSheath => SkillDesc { limit: 3, jewel_size: Some(2) },
            Skill::FireAttack => SkillDesc { limit: 5, jewel_size: Some(1) },
            Skill::IceAttack => SkillDesc { limit: 5, jewel_size: Some(1) },
            Skill::WaterAttack => SkillDesc { limit: 5, jewel_size: Some(1) },
            Skill::ProtectivePolish => SkillDesc { limit: 3, jewel_size: Some(2) },
            Skill::StaminaThief => SkillDesc { limit: 3, jewel_size: Some(1) },
            Skill::Partbreaker => SkillDesc { limit: 3, jewel_size: Some(2) },
            Skill::Mushroomancer => SkillDesc { limit: 3, jewel_size: Some(3) },
            Skill::MaximumMight => SkillDesc { limit: 3, jewel_size: Some(2) },
            Skill::MarathonRunner => SkillDesc { limit: 3, jewel_size: Some(2) },
            Skill::PeakPerformance => SkillDesc { limit: 3, jewel_size: Some(2) },
            Skill::AttackBoost => SkillDesc { limit: 7, jewel_size: Some(2) },
            Skill::OffensiveGuard => SkillDesc { limit: 3, jewel_size: Some(3) },
            Skill::Focus => SkillDesc { limit: 3, jewel_size: Some(2) },
            Skill::RecoveryUp => SkillDesc { limit: 3, jewel_size: Some(2) },
            Skill::NormalRapidUp => SkillDesc { limit: 3, jewel_size: Some(3) },
            Skill::SpeedEating => SkillDesc { limit: 3, jewel_size: Some(2) },
            Skill::Windproof => SkillDesc { limit: 3, jewel_size: Some(1) },
            Skill::Bludgeoner => SkillDesc { limit: 3, jewel_size: Some(2) },
            Skill::AffinitySliding => SkillDesc { limit: 1, jewel_size: Some(1) },
            Skill::WideRange => SkillDesc { limit: 5, jewel_size: Some(2) },
            Skill::StunResistance => SkillDesc { limit: 3, jewel_size: Some(1) },
            Skill::LoadShells => SkillDesc { limit: 2, jewel_size: Some(2) },
            Skill::ParalysisAttack => SkillDesc { limit: 3, jewel_size: Some(1) },
            Skill::PierceUp => SkillDesc { limit: 3, jewel_size: Some(3) },
            Skill::AimBooster => SkillDesc { limit: 3, jewel_size: Some(2) },
            Skill::SleepAttack => SkillDesc { limit: 3, jewel_size: Some(2) },
            Skill::BlightResistance => SkillDesc { limit: 3, jewel_size: Some(2) },
            Skill::CriticalDraw => SkillDesc { limit: 3, jewel_size: Some(3) },
            Skill::JumpMaster => SkillDesc { limit: 1, jewel_size: Some(3) },
            Skill::Constitution => SkillDesc { limit: 5, jewel_size: Some(2) },
            Skill::FreeMeal => SkillDesc { limit: 3, jewel_size: Some(1) },
            Skill::GoodLuck => SkillDesc { limit: 3, jewel_size: Some(3) },
            Skill::RazorSharp => SkillDesc { limit: 3, jewel_size: Some(2) },
            Skill::SpareShot => SkillDesc { limit: 3, jewel_size: Some(2) },
            Skill::WirebugWhisperer => SkillDesc { limit: 3, jewel_size: Some(2) },
            Skill::Resentment => SkillDesc { limit: 3, jewel_size: Some(2) },
            Skill::Handicraft => SkillDesc { limit: 5, jewel_size: Some(3) },
            Skill::FlinchFree => SkillDesc { limit: 3, jewel_size: Some(1) },
            Skill::RapidMorph => SkillDesc { limit: 3, jewel_size: Some(2) },
            Skill::LatentPower => SkillDesc { limit: 5, jewel_size: Some(2) },
            Skill::WeaknessExploit => SkillDesc { limit: 3, jewel_size: Some(2) },
            Skill::Resuscitate => SkillDesc { limit: 3, jewel_size: Some(2) },
            Skill::EvadeWindow => SkillDesc { limit: 3, jewel_size: Some(2) },
            Skill::Slugger => SkillDesc { limit: 3, jewel_size: Some(2) },
            Skill::SpecialAmmoBoost => SkillDesc { limit: 2, jewel_size: Some(2) },
            Skill::Agitator => SkillDesc { limit: 5, jewel_size: Some(2) },
            Skill::DevineBlessing => SkillDesc { limit: 3, jewel_size: Some(2) },
            Skill::Geologist => SkillDesc { limit: 3, jewel_size: Some(1) },
            Skill::HungerResistance => SkillDesc { limit: 3, jewel_size: Some(1) },
            Skill::CriticalElement => SkillDesc { limit: 3, jewel_size: Some(2) },
            Skill::EvadeExtender => SkillDesc { limit: 3, jewel_size: Some(2) },
            Skill::DragonAttack => SkillDesc { limit: 5, jewel_size: Some(1) },
            Skill::Heroics => SkillDesc { limit: 5, jewel_size: Some(2) },
            Skill::SleepResistance => SkillDesc { limit: 3, jewel_size: Some(1) },
            Skill::ParalysisResistance => SkillDesc { limit: 3, jewel_size: Some(1) },
            Skill::PoisonResistance => SkillDesc { limit: 3, jewel_size: Some(1) },
            Skill::WindAlignment => SkillDesc { limit: 3, jewel_size: None },
            Skill::SpreadUp => SkillDesc { limit: 3, jewel_size: Some(3) },
            Skill::ReloadSpeed => SkillDesc { limit: 3, jewel_size: Some(1) },
            Skill::ThunderAlignment => SkillDesc { limit: 5, jewel_size: None },
            Skill::Guard => SkillDesc { limit: 5, jewel_size: Some(2) },
            Skill::StaminaSurge => SkillDesc { limit: 3, jewel_size: Some(2) },
            Skill::Earplugs => SkillDesc { limit: 5, jewel_size: Some(3) },
            Skill::BowChargePlus => SkillDesc { limit: 1, jewel_size: None },
            Skill::BlastResistance => SkillDesc { limit: 3, jewel_size: Some(1) },
            Skill::AmmoUp => SkillDesc { limit: 3, jewel_size: Some(3) },
            Skill::LeapofFaith => SkillDesc { limit: 1, jewel_size: Some(1) },
            Skill::DragonResistance => SkillDesc { limit: 3, jewel_size: Some(1) },
            Skill::WaterResistance => SkillDesc { limit: 3, jewel_size: Some(1) },
            Skill::DivineBlessing => SkillDesc { limit: 3, jewel_size: Some(2) },
            Skill::RecoverySpeed => SkillDesc { limit: 3, jewel_size: Some(1) },
            Skill::SpeedSharpening => SkillDesc { limit: 3, jewel_size: Some(1) },
            Skill::MuckResistance => SkillDesc { limit: 2, jewel_size: Some(1) },
            Skill::PowerProlonger => SkillDesc { limit: 3, jewel_size: Some(2) },
            Skill::TremorResistance => SkillDesc { limit: 3, jewel_size: Some(2) },
            Skill::HellfireCloak => SkillDesc { limit: 4, jewel_size: Some(3) },
            Skill::BubblyDance => SkillDesc { limit: 3, jewel_size: Some(2) },
            Skill::PunishingDraw => SkillDesc { limit: 3, jewel_size: Some(2) },
            Skill::WallRunner => SkillDesc { limit: 3, jewel_size: Some(2) },
            Skill::GuardUp => SkillDesc { limit: 3, jewel_size: Some(2) },
            Skill::CriticalBoost => SkillDesc { limit: 3, jewel_size: Some(2) },
            Skill::MindsEye => SkillDesc { limit: 3, jewel_size: Some(2) },
            Skill::BlastAttack => SkillDesc { limit: 3, jewel_size: Some(2) },
            Skill::MasterMounter => SkillDesc { limit: 1, jewel_size: Some(2) },
            Skill::Counterstrike => SkillDesc { limit: 3, jewel_size: Some(2) },
            Skill::ThunderAttack => SkillDesc { limit: 5, jewel_size: Some(1) },
            Skill::Artillery => SkillDesc { limit: 3, jewel_size: Some(2) },
            Skill::Bombardier => SkillDesc { limit: 3, jewel_size: Some(1) },
            Skill::CaptureMaster => SkillDesc { limit: 1, jewel_size: None },
            Skill::Diversion => SkillDesc { limit: 1, jewel_size: Some(1) },
            Skill::FireResistance => SkillDesc { limit: 3, jewel_size: Some(1) },
            Skill::HornMaestro => SkillDesc { limit: 1, jewel_size: Some(1) },
            Skill::Ballistics => SkillDesc { limit: 3, jewel_size: Some(2) },
            Skill::KushalaBlessing => SkillDesc { limit: 4, jewel_size: None },
            Skill::ChameleosBlessing => SkillDesc { limit: 4, jewel_size: None },
            Skill::TeostraBlessing => SkillDesc { limit: 4, jewel_size: None },
            Skill::MastersTouch => SkillDesc { limit: 3, jewel_size: Some(2) },
            Skill::RapidFireUp => SkillDesc { limit: 3, jewel_size: Some(3) },
            Skill::CarvingPro => SkillDesc { limit: 1, jewel_size: Some(1) },
        }
    }
}
impl Skill {
    /// Size of the jewel that grants one level of this skill, or `None` when
    /// the skill only comes from armor pieces.
    pub fn get_jewel_size(&self) -> (r: Option<u8>)
        ensures
            r == self.jewel_size_of(),
    {
        self.get_skill_desc().jewel_size
    }

    /// Highest level of this skill that still has an effect.
    pub fn get_limit(&self) -> (r: u8)
        ensures
            r == self.limit_of(),
    {
        self.get_skill_desc().limit
    }

    /// Every jewel is of size 1, 2 or 3.
    pub proof fn lemma_jewel_size_range(self)
        ensures
            match self.jewel_size_of() {
                Some(size) => 1 <= size <= 3,
                None => true,
            },
    {
    }
}

impl Default for Skill {
    fn default() -> (r: Self)
        ensures
            r == Skill::Botanist,
    {
        Skill::Botanist
    }
}

/// Copies a vector element by element.
fn copy_vec<T: Copy>(v: &Vec<T>) -> (r: Vec<T>)
    ensures
        r@ == v@,
{
    let mut r: Vec<T> = Vec::new();
    let mut i: usize = 0;
    while i < v.len()
        invariant
            i <= v@.len(),
            r@ == v@.subrange(0, i as int),
        decreases v@.len() - i,
    {
        r.push(v[i]);
        i = i + 1;
        proof {
            assert(r@ =~= v@.subrange(0, i as int));
        }
    }
    proof {
        assert(r@ =~= v@);
    }
    r
}

/// An armor piece (or a talisman): the skills it grants, its empty jewel
/// slots and the gender that may wear it.
#[derive(Debug)]
pub struct Armor {
    pub name: String,
    pub skills: Vec<(Skill, u8)>,
    pub slots: Vec<u8>,
    pub rare: u8,
    pub defense: u8,
    pub fire: i8,
    pub water: i8,
    pub thunder: i8,
    pub ice: i8,
    pub dragon: i8,
    pub gender: Gender,
}

/// Mathematical value of an [`Armor`].
pub struct ArmorView {
    pub name: Seq<char>,
    pub skills: Seq<(Skill, u8)>,
    pub slots: Seq<u8>,
    pub rare: u8,
    pub defense: u8,
    pub fire: i8,
    pub water: i8,
    pub thunder: i8,
    pub ice: i8,
    pub dragon: i8,
    pub gender: Gender,
}

impl View for Armor {
    type V = ArmorView;

    open spec fn view(&self) -> ArmorView {
        ArmorView {
            name: self.name@,
            skills: self.skills@,
            slots: self.slots@,
            rare: self.rare,
            defense: self.defense,
            fire: self.fire,
            water: self.water,
            thunder: self.thunder,
            ice: self.ice,
            dragon: self.dragon,
            gender: self.gender,
        }
    }
}

impl ArmorView {
    /// A piece has at most three jewel slots.
    pub open spec fn wf(self) -> bool {
        self.slots.len() <= 3
    }
}

impl Armor {
    pub open spec fn wf(&self) -> bool {
        self@.wf()
    }
}

impl Clone for Armor {
    fn clone(&self) -> (r: Self)
        ensures
            r@ == self@,
    {
        Armor {
            name: self.name.clone(),
            skills: copy_vec(&self.skills),
            slots: copy_vec(&self.slots),
            rare: self.rare,
            defense: self.defense,
            fire: self.fire,
            water: self.water,
            thunder: self.thunder,
            ice: self.ice,
            dragon: self.dragon,
            gender: self.gender,
        }
    }
}

/// Two pieces are the same piece when their names are equal.
impl PartialEq for Armor {
    fn eq(&self, other: &Armor) -> (r: bool)
        ensures
            r == (self.name@ == other.name@),
    {
        self.name == other.name
    }
}

impl vstd::std_specs::cmp::PartialEqSpecImpl for Armor {
    open spec fn obeys_eq_spec() -> bool {
        true
    }

    open spec fn eq_spec(&self, other: &Armor) -> bool {
        self.name@ == other.name@
    }
}

/// A talisman as it is kept on its own: a name, skills and slots.
#[derive(Debug)]
pub struct Talisman {
    pub name: String,
    pub skills: Vec<(Skill, u8)>,
    pub slots: Vec<u8>,
}

/// The piece that a talisman stands for: its name, skills and slots, no
/// defense or resistances, wearable by everyone.
pub fn talisman_to_armor(talisman: &Talisman) -> (r: Armor)
    ensures
        r@ == (ArmorView {
            name: talisman.name@,
            skills: talisman.skills@,
            slots: talisman.slots@,
            rare: 0,
            defense: 0,
            fire: 0,
            water: 0,
            thunder: 0,
            ice: 0,
            dragon: 0,
            gender: Gender::Neutral,
        }),
{
    Armor {
        name: talisman.name.clone(),
        skills: copy_vec(&talisman.skills),
        slots: copy_vec(&talisman.slots),
        rare: 0,
        defense: 0,
        fire: 0,
        water: 0,
        thunder: 0,
        ice: 0,
        dragon: 0,
        gender: Gender::Neutral,
    }
}

/// The talisman part of a piece: its name, skills and slots.
pub fn armor_to_talisman(armor: &Armor) -> (r: Talisman)
    ensures
        r.name@ == armor.name@,
        r.skills@ == armor.skills@,
        r.slots@ == armor.slots@,
{
    Talisman {
        name: armor.name.clone(),
        skills: copy_vec(&armor.skills),
        slots: copy_vec(&armor.slots),
    }
}

} // verus!
