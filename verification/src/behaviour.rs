use vstd::prelude::*;

use crate::text::str_eq;

verus! {

/// How a plugin's activation interacts with the other plugins.
#[derive(Debug, PartialEq, Eq, Clone, Copy, Structural)]
pub enum PluginExecutionBehaviour {
    NonRestricted,
    Exclusive,
    Always,
    Once,
}

/// The behaviour that a name stands for, if any.
pub open spec fn spec_behaviour_from_name(name: Seq<char>) -> Result<PluginExecutionBehaviour, ()> {
    if name == "NonRestricted"@ {
        Ok(PluginExecutionBehaviour::NonRestricted)
    } else if name == "Exclusive"@ {
        Ok(PluginExecutionBehaviour::Exclusive)
    } else if name == "Always"@ {
        Ok(PluginExecutionBehaviour::Always)
    } else if name == "Once"@ {
        Ok(PluginExecutionBehaviour::Once)
    } else {
        Err(())
    }
}

impl PluginExecutionBehaviour {
    /// Parses the name of a behaviour; any other text is refused.
    pub fn from_str(input: &str) -> (r: Result<PluginExecutionBehaviour, ()>)
        ensures
            r == spec_behaviour_from_name(input@),
    {
        if str_eq(input, "NonRestricted") {
            Ok(PluginExecutionBehaviour::NonRestricted)
        } else if str_eq(input, "Exclusive") {
            Ok(PluginExecutionBehaviour::Exclusive)
        } else if str_eq(input, "Always") {
            Ok(PluginExecutionBehaviour::Always)
        } else if str_eq(input, "Once") {
            Ok(PluginExecutionBehaviour::Once)
        } else {
            Err(())
        }
    }
}

impl std::str::FromStr for PluginExecutionBehaviour {
    type Err = ();

    /// Parses the name of a behaviour (see the inherent `from_str`).
    fn from_str(input: &str) -> (r: Result<PluginExecutionBehaviour, ()>)
        ensures
            r == spec_behaviour_from_name(input@),
    {
        PluginExecutionBehaviour::from_str(input)
    }
}

} // verus!
