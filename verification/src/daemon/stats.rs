//! Counters for `org.freedesktop.DBus.Debug.Stats`.

use vstd::prelude::*;

verus! {

/// The bus's counters; each wraps around at the top of its range.
#[derive(Debug, Clone, Copy)]
pub struct Stats {
    /// When the bus started, in seconds of the caller's clock.
    pub started_at: u64,
    pub messages_routed: u64,
    pub bytes_routed: u64,
    pub signals_delivered: u64,
    pub activations_started: u64,
    pub policy_denials: u64,
}

/// `a + b` around the `u64` range.
pub open spec fn wrap_add(a: u64, b: u64) -> u64 {
    ((a as int + b as int) % 0x1_0000_0000_0000_0000) as u64
}

impl Stats {
    /// Zero counters, started at `now` seconds.
    pub fn new(now: u64) -> (s: Stats)
        ensures
            s.started_at == now,
            s.messages_routed == 0 && s.bytes_routed == 0 && s.signals_delivered == 0,
            s.activations_started == 0 && s.policy_denials == 0,
    {
        Stats {
            started_at: now,
            messages_routed: 0,
            bytes_routed: 0,
            signals_delivered: 0,
            activations_started: 0,
            policy_denials: 0,
        }
    }

    /// Count a routed message of `bytes` bytes.
    pub fn record_routed(&mut self, bytes: u64)
        ensures
            final(self).messages_routed == wrap_add(old(self).messages_routed, 1),
            final(self).bytes_routed == wrap_add(old(self).bytes_routed, bytes),
            final(self).signals_delivered == old(self).signals_delivered,
            final(self).activations_started == old(self).activations_started,
            final(self).policy_denials == old(self).policy_denials,
            final(self).started_at == old(self).started_at,
    {
        self.messages_routed = self.messages_routed.wrapping_add(1);
        self.bytes_routed = self.bytes_routed.wrapping_add(bytes);
    }

    /// Count a delivered signal.
    pub fn record_signal(&mut self)
        ensures
            final(self).signals_delivered == wrap_add(old(self).signals_delivered, 1),
            final(self).messages_routed == old(self).messages_routed,
            final(self).bytes_routed == old(self).bytes_routed,
            final(self).activations_started == old(self).activations_started,
            final(self).policy_denials == old(self).policy_denials,
            final(self).started_at == old(self).started_at,
    {
        self.signals_delivered = self.signals_delivered.wrapping_add(1);
    }

    /// Count a started activation.
    pub fn record_activation(&mut self)
        ensures
            final(self).activations_started == wrap_add(old(self).activations_started, 1),
            final(self).messages_routed == old(self).messages_routed,
            final(self).bytes_routed == old(self).bytes_routed,
            final(self).signals_delivered == old(self).signals_delivered,
            final(self).policy_denials == old(self).policy_denials,
            final(self).started_at == old(self).started_at,
    {
        self.activations_started = self.activations_started.wrapping_add(1);
    }

    /// Count a policy denial.
    pub fn record_denial(&mut self)
        ensures
            final(self).policy_denials == wrap_add(old(self).policy_denials, 1),
            final(self).messages_routed == old(self).messages_routed,
            final(self).bytes_routed == old(self).bytes_routed,
            final(self).signals_delivered == old(self).signals_delivered,
            final(self).activations_started == old(self).activations_started,
            final(self).started_at == old(self).started_at,
    {
        self.policy_denials = self.policy_denials.wrapping_add(1);
    }

    /// Whole seconds since the start, at time `now`; zero where `now` is
    /// before the start.
    pub fn uptime_secs(&self, now: u64) -> (s: u64)
        ensures
            s == if now >= self.started_at {
                (now - self.started_at) as u64
            } else {
                0
            },
    {
        now.saturating_sub(self.started_at)
    }
}

} // verus!
