//! Token totals over the turns of a session.
use vstd::prelude::*;

use crate::model::Usage;

verus! {

/// `a + b`, or `u32::MAX` when that does not fit.
pub open spec fn sat_add(a: u32, b: u32) -> u32 {
    if a + b > u32::MAX {
        u32::MAX
    } else {
        (a + b) as u32
    }
}

/// Totals over the turns so far.
#[derive(Clone, Copy, Debug)]
pub struct TurnStats {
    pub total_input_tokens: u32,
    pub total_output_tokens: u32,
    pub turn_count: u32,
}

impl Default for TurnStats {
    /// No turn yet.
    fn default() -> (s: Self)
        ensures
            s.total_input_tokens == 0,
            s.total_output_tokens == 0,
            s.turn_count == 0,
    {
        TurnStats { total_input_tokens: 0, total_output_tokens: 0, turn_count: 0 }
    }
}

impl TurnStats {
    /// Adds a turn's usage; totals and count stop at `u32::MAX`.
    pub fn record(&mut self, usage: &Usage)
        ensures
            final(self).total_input_tokens == sat_add(old(self).total_input_tokens, usage.input_tokens),
            final(self).total_output_tokens == sat_add(
                old(self).total_output_tokens,
                usage.output_tokens,
            ),
            final(self).turn_count == sat_add(old(self).turn_count, 1),
    {
        self.total_input_tokens = self.total_input_tokens.saturating_add(usage.input_tokens);
        self.total_output_tokens = self.total_output_tokens.saturating_add(usage.output_tokens);
        self.turn_count = self.turn_count.saturating_add(1);
    }
}

/// Recording never lowers a total: each is the old total plus the turn's
/// tokens, or the largest `u32` when that sum does not fit.
pub proof fn law_record_saturates(old_total: u32, add: u32)
    ensures
        sat_add(old_total, add) >= old_total,
        sat_add(old_total, add) == old_total + add || sat_add(old_total, add) == u32::MAX,
{
}

} // verus!
