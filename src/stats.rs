//! Combatant statistics of the player and of enemies.
use vstd::prelude::*;
use crate::combat::{healed, restore};

verus! {

/// The player's statistics.
#[derive(Clone, Copy, Debug, PartialEq, Eq, Structural)]
pub struct PlayerStats {
    pub atk: u32,
    pub def: u32,
    pub matk: u32,
    pub mdef: u32,
    pub spd: u32,
    pub max_hp: u32,
    pub hp: u32,
    pub skill_points: u32,
    pub ability_points: u32,
    pub strength: u32,
    pub magic: u32,
    pub agility: u32,
    pub health: u32,
}

impl PlayerStats {
    /// A fresh player: every stat 1, 10 of 10 hit points, 4 skill points and
    /// 8 ability points.
    pub fn new() -> (r: PlayerStats)
        ensures
            r == (PlayerStats {
                atk: 1, def: 1, matk: 1, mdef: 1, spd: 1, max_hp: 10, hp: 10,
                skill_points: 4, ability_points: 8, strength: 1, magic: 1, agility: 1, health: 1,
            }),
    {
        PlayerStats {
            atk: 1,
            def: 1,
            matk: 1,
            mdef: 1,
            spd: 1,
            max_hp: 10,
            hp: 10,
            skill_points: 4,
            ability_points: 8,
            strength: 1,
            magic: 1,
            agility: 1,
            health: 1,
        }
    }

    /// Ten hit points per point of current hit points.
    pub fn calculate_max_hp(&self) -> (r: u32)
        requires
            self.hp * 10 <= u32::MAX,
        ensures
            r == self.hp * 10,
    {
        self.hp * 10
    }

    /// Sets the maximum hit points to `calculate_max_hp`.
    pub fn update_max_hp(&mut self)
        requires
            old(self).hp * 10 <= u32::MAX,
        ensures
            *final(self) == (PlayerStats { max_hp: (old(self).hp * 10) as u32, ..*old(self) }),
    {
        self.max_hp = self.calculate_max_hp();
    }

    /// Spends one ability point to raise `attr` by one, if a point is left;
    /// says whether it did.
    pub fn spend_ability_point(&mut self, attr: Attribute) -> (r: bool)
        requires
            old(self).hp <= old(self).max_hp,
            attr == Attribute::Strength ==> old(self).strength < u32::MAX,
            attr == Attribute::Magic ==> old(self).magic < u32::MAX,
            attr == Attribute::Agility ==> old(self).agility < u32::MAX,
            attr == Attribute::Health ==> old(self).health < u32::MAX,
        ensures
            r == (old(self).ability_points > 0),
            !r ==> *final(self) == *old(self),
            r && attr == Attribute::Strength ==> *final(self) == (PlayerStats {
                strength: (old(self).strength + 1) as u32, ability_points: (old(self).ability_points - 1) as u32, ..*old(self) }),
            r && attr == Attribute::Magic ==> *final(self) == (PlayerStats {
                magic: (old(self).magic + 1) as u32, ability_points: (old(self).ability_points - 1) as u32, ..*old(self) }),
            r && attr == Attribute::Agility ==> *final(self) == (PlayerStats {
                agility: (old(self).agility + 1) as u32, ability_points: (old(self).ability_points - 1) as u32, ..*old(self) }),
            r && attr == Attribute::Health ==> *final(self) == (PlayerStats {
                health: (old(self).health + 1) as u32,
                hp: healed(old(self).hp, old(self).max_hp, HEALTH_BONUS_HEAL),
                ability_points: (old(self).ability_points - 1) as u32,
                ..*old(self)
            }),
    {
        if self.ability_points == 0 {
            return false;
        }
        match attr {
            Attribute::Strength => self.strength = self.strength + 1,
            Attribute::Magic => self.magic = self.magic + 1,
            Attribute::Agility => self.agility = self.agility + 1,
            Attribute::Health => {
                self.health = self.health + 1;
                self.hp = restore(self.hp, self.max_hp, HEALTH_BONUS_HEAL);
            },
        }
        self.ability_points = self.ability_points - 1;
        true
    }

    /// Spends `points` skill points, if any are left.
    pub fn spend_skill_points(&mut self, points: u32)
        requires
            old(self).skill_points > 0 ==> points <= old(self).skill_points,
        ensures
            *final(self) == (PlayerStats {
                skill_points: if old(self).skill_points > 0 { (old(self).skill_points - points) as u32 } else { 0 },
                ..*old(self)
            }),
    {
        if self.skill_points > 0 {
            self.skill_points = self.skill_points - points;
        }
    }
}

/// A player attribute that ability points raise.
#[derive(Clone, Copy, Debug, PartialEq, Eq, Structural)]
pub enum Attribute {
    Strength,
    Magic,
    Agility,
    /// Also heals 10 hit points, up to the maximum.
    Health,
}

/// The hit points that raising health restores.
pub const HEALTH_BONUS_HEAL: u32 = 10;

/// An enemy's statistics. `etype` selects its kind: 1 acts at random, 2
/// follows the heuristic policy, any other always attacks physically.
#[derive(Clone, Copy, Debug, PartialEq, Eq, Structural)]
pub struct EnemyStats {
    pub physatk: u32,
    pub physdef: u32,
    pub mgkatk: u32,
    pub mgkdef: u32,
    pub speed: u32,
    pub max_hp: u32,
    pub hp: u32,
    pub etype: u32,
    pub next_action_tick: u32,
}

impl EnemyStats {
    /// A fresh enemy of kind `etype`: every stat 1, 10 of 10 hit points.
    pub fn new(etype: u32) -> (r: EnemyStats)
        ensures
            r == (EnemyStats {
                physatk: 1, physdef: 1, mgkatk: 1, mgkdef: 1, speed: 1, max_hp: 10, hp: 10, etype,
                next_action_tick: 0,
            }),
    {
        EnemyStats {
            physatk: 1,
            physdef: 1,
            mgkatk: 1,
            mgkdef: 1,
            speed: 1,
            max_hp: 10,
            hp: 10,
            etype,
            next_action_tick: 0,
        }
    }

    /// The sprite sheet that draws an enemy of this kind.
    pub fn sprite_path(&self) -> (r: &'static str)
        ensures
            self.etype == 1 ==> r@ == "enemyPlaceHolder.png"@,
            self.etype == 2 ==> r@ == "characterProto.png"@,
            self.etype != 1 && self.etype != 2 ==> r@ == "tileProto.png"@,
    {
        match self.etype {
            1 => "enemyPlaceHolder.png",
            2 => "characterProto.png",
            _ => "tileProto.png",
        }
    }
}

} // verus!
