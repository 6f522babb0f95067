use vstd::prelude::*;

verus! {

/// The magazine of a gun: its size, the rounds left in it and whether a
/// reload is under way. The reload and cooldown clocks run with the game's
/// timers; this holds what the firing rules read.
#[derive(Clone, Copy, Debug, PartialEq, Eq, Structural)]
pub struct Magazine {
    pub size: u32,
    pub ammo: u32,
    pub reloading: bool,
}

/// What pulling the trigger did.
#[derive(Clone, Copy, Debug, PartialEq, Eq, Structural)]
pub enum TriggerOutcome {
    /// A round was fired.
    Fired,
    /// Nothing: the gun is reloading.
    StillReloading,
    /// The magazine was empty, so a reload started instead.
    StartedReload,
}

/// The magazine after a reload is asked for: it starts unless one is under
/// way or the magazine is full.
pub open spec fn reload_started(m: Magazine) -> Magazine {
    if !m.reloading && m.ammo < m.size {
        Magazine { reloading: true, ..m }
    } else {
        m
    }
}

/// The magazine once a reload's clock has run out.
pub open spec fn reload_finished(m: Magazine) -> Magazine {
    if m.reloading {
        Magazine { ammo: m.size, reloading: false, ..m }
    } else {
        m
    }
}

/// What pulling the trigger does.
pub open spec fn trigger_outcome(m: Magazine) -> TriggerOutcome {
    if m.reloading {
        TriggerOutcome::StillReloading
    } else if m.ammo == 0 {
        TriggerOutcome::StartedReload
    } else {
        TriggerOutcome::Fired
    }
}

/// The magazine after the trigger is pulled.
pub open spec fn after_trigger(m: Magazine) -> Magazine {
    match trigger_outcome(m) {
        TriggerOutcome::StillReloading => m,
        TriggerOutcome::StartedReload => reload_started(m),
        TriggerOutcome::Fired => Magazine { ammo: (m.ammo - 1) as u32, ..m },
    }
}

impl Magazine {
    /// Never more rounds than the magazine holds.
    pub open spec fn wf(&self) -> bool {
        self.ammo <= self.size
    }

    /// A full magazine of `size` rounds.
    pub fn full(size: u32) -> (m: Self)
        ensures
            m == (Magazine { size, ammo: size, reloading: false }),
            m.wf(),
    {
        Magazine { size, ammo: size, reloading: false }
    }

    /// Starts a reload, unless one is under way or the magazine is full.
    /// Returns whether a reload started (its clock then restarts).
    pub fn start_reload(&mut self) -> (started: bool)
        ensures
            started == (!old(self).reloading && old(self).ammo < old(self).size),
            *final(self) == reload_started(*old(self)),
    {
        if self.reloading || self.ammo >= self.size {
            return false;
        }
        self.reloading = true;
        true
    }

    /// Ends a reload whose clock has run out: the magazine is full again.
    /// Without a reload under way nothing happens.
    pub fn finish_reload(&mut self)
        ensures
            *final(self) == reload_finished(*old(self)),
    {
        if self.reloading {
            self.reloading = false;
            self.ammo = self.size;
        }
    }

    /// Pulls the trigger once the gun's cooldown is over: a reloading gun does
    /// nothing, an empty one starts reloading, any other fires one round.
    pub fn pull_trigger(&mut self) -> (outcome: TriggerOutcome)
        ensures
            outcome == trigger_outcome(*old(self)),
            *final(self) == after_trigger(*old(self)),
    {
        if self.reloading {
            return TriggerOutcome::StillReloading;
        }
        if self.ammo == 0 {
            self.start_reload();
            return TriggerOutcome::StartedReload;
        }
        self.ammo = self.ammo - 1;
        TriggerOutcome::Fired
    }
}

/// No operation on a magazine puts more rounds in it than it holds.
pub proof fn law_magazine_never_overfills(m: Magazine)
    requires
        m.wf(),
    ensures
        reload_started(m).wf(),
        reload_finished(m).wf(),
        after_trigger(m).wf(),
{
}

/// After a shot, a reload run to its end fills the magazine again.
pub proof fn law_reload_refills(m: Magazine)
    requires
        m.wf(),
        trigger_outcome(m) == TriggerOutcome::Fired,
    ensures
        reload_finished(reload_started(after_trigger(m))) == (Magazine { ammo: m.size, ..m }),
{
}

/// A full magazine does not reload.
pub proof fn law_full_magazine_does_not_reload(m: Magazine)
    requires
        m.ammo == m.size,
    ensures
        reload_started(m) == m,
{
}

/// A shot spends exactly one round: a magazine that is not reloading and
/// holds a round fires, and afterwards holds one round fewer, with its size
/// and reload flag kept.
pub proof fn law_a_shot_spends_one_round(m: Magazine)
    requires
        !m.reloading,
        m.ammo > 0,
    ensures
        trigger_outcome(m) == TriggerOutcome::Fired,
        after_trigger(m).ammo + 1 == m.ammo,
        after_trigger(m).size == m.size,
        !after_trigger(m).reloading,
{
}

/// Pulling the trigger on an empty magazine fires nothing: it starts a reload
/// (when the magazine can hold a round) and leaves the rounds at zero.
pub proof fn law_empty_magazine_reloads_instead(m: Magazine)
    requires
        !m.reloading,
        m.ammo == 0,
    ensures
        trigger_outcome(m) == TriggerOutcome::StartedReload,
        after_trigger(m).ammo == 0,
        after_trigger(m).size == m.size,
        after_trigger(m).reloading == (m.size > 0),
{
}

/// While a reload is under way the trigger does nothing at all.
pub proof fn law_reloading_gun_does_not_fire(m: Magazine)
    requires
        m.reloading,
    ensures
        trigger_outcome(m) == TriggerOutcome::StillReloading,
        after_trigger(m) == m,
{
}

/// The trigger never adds rounds and never takes more than one.
pub proof fn law_trigger_takes_at_most_one_round(m: Magazine)
    ensures
        after_trigger(m).ammo <= m.ammo,
        m.ammo <= after_trigger(m).ammo + 1,
        after_trigger(m).size == m.size,
{
}

/// Asking for a reload starts one exactly when none is under way and the
/// magazine is not full, and changes no rounds; finishing a reload fills the
/// magazine to its size and ends the reload.
pub proof fn law_reload_cycle(m: Magazine)
    ensures
        reload_started(m).reloading == (m.reloading || m.ammo < m.size),
        reload_started(m).ammo == m.ammo,
        reload_started(m).size == m.size,
        m.reloading ==> reload_finished(m).ammo == m.size && !reload_finished(m).reloading,
        !m.reloading ==> reload_finished(m) == m,
{
}

} // verus!
