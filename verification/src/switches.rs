//! Renderer switches that can be changed while the renderer is running.
//!
//! A switch has a default, may be pinned by an environment variable, and may be driven by an
//! alternating A/B harness. The A/B outranks the environment, which outranks the UI.
use vstd::prelude::*;
use vstd::string::*;

verus! {

/// No A/B is driving this switch.
pub const AB_NONE: u8 = 0;
pub const AB_OFF: u8 = 1;
pub const AB_ON: u8 = 2;

/// A switch with a default, an environment override, and a value the UI may set.
#[derive(Debug)]
pub struct RuntimeSwitch {
    env: &'static str,
    value: bool,
    ab: u8,
    env_override: Option<bool>,
}

/// What an environment variable's value instructs: the recognised spellings of off and on,
/// and nothing at all for anything else.
pub open spec fn switch_value_spec(b: Seq<u8>) -> Option<bool> {
    if b == seq![48u8] || b == seq![111u8, 102u8, 102u8] || b == seq![
        102u8,
        97u8,
        108u8,
        115u8,
        101u8,
    ] || b == seq![110u8, 111u8] {
        Some(false)
    } else if b == seq![49u8] || b == seq![111u8, 110u8] || b == seq![116u8, 114u8, 117u8, 101u8]
        || b == seq![121u8, 101u8, 115u8] {
        Some(true)
    } else {
        None
    }
}

/// Whether two byte strings are equal.
pub fn bytes_equal(a: &[u8], b: &[u8]) -> (r: bool)
    ensures
        r == (a@ == b@),
{
    if a.len() != b.len() {
        return false;
    }
    let mut i: usize = 0;
    while i < a.len()
        invariant
            i <= a@.len() == b@.len(),
            forall|j: int| 0 <= j < i ==> a@[j] == b@[j],
        decreases a.len() - i,
    {
        if a[i] != b[i] {
            return false;
        }
        i += 1;
    }
    assert(a@ =~= b@);
    true
}

/// The ASCII lower-case of a byte; other bytes are unchanged.
pub open spec fn ascii_lower(b: u8) -> u8 {
    if 65 <= b <= 90 {
        (b + 32) as u8
    } else {
        b
    }
}

/// Whether two byte strings are equal once ASCII letters are folded to lower case.
pub open spec fn eq_ignore_ascii_case_spec(a: Seq<u8>, b: Seq<u8>) -> bool {
    &&& a.len() == b.len()
    &&& forall|i: int| 0 <= i < a.len() ==> ascii_lower(a[i]) == ascii_lower(b[i])
}

pub fn to_ascii_lower(b: u8) -> (r: u8)
    ensures
        r == ascii_lower(b),
{
    if 65 <= b && b <= 90 {
        b + 32
    } else {
        b
    }
}

/// Whether two strings are equal once ASCII letters are folded to lower case.
pub fn eq_ignore_ascii_case(a: &str, b: &str) -> (r: bool)
    ensures
        r == eq_ignore_ascii_case_spec(a.spec_bytes(), b.spec_bytes()),
{
    let ab = a.as_bytes();
    let bb = b.as_bytes();
    if ab.len() != bb.len() {
        return false;
    }
    let mut i: usize = 0;
    while i < ab.len()
        invariant
            i <= ab@.len() == bb@.len(),
            ab@ == a.spec_bytes(),
            bb@ == b.spec_bytes(),
            forall|j: int| 0 <= j < i ==> ascii_lower(ab@[j]) == ascii_lower(bb@[j]),
        decreases ab.len() - i,
    {
        if to_ascii_lower(ab[i]) != to_ascii_lower(bb[i]) {
            assert(ascii_lower(a.spec_bytes()[i as int]) != ascii_lower(b.spec_bytes()[i as int]));
            return false;
        }
        i += 1;
    }
    true
}

/// What an environment variable's value instructs: `Some(false)` for `0`, `off`, `false` or
/// `no`, `Some(true)` for `1`, `on`, `true` or `yes`, and `None` for anything else.
pub fn parse_switch_value(value: &str) -> (r: Option<bool>)
    ensures
        r == switch_value_spec(value.spec_bytes()),
{
    let b = value.as_bytes();
    let zero: [u8; 1] = [48u8];
    let off: [u8; 3] = [111u8, 102u8, 102u8];
    let f: [u8; 5] = [102u8, 97u8, 108u8, 115u8, 101u8];
    let no: [u8; 2] = [110u8, 111u8];
    let one: [u8; 1] = [49u8];
    let on: [u8; 2] = [111u8, 110u8];
    let t: [u8; 4] = [116u8, 114u8, 117u8, 101u8];
    let yes: [u8; 3] = [121u8, 101u8, 115u8];
    assert(zero@ =~= seq![48u8]);
    assert(off@ =~= seq![111u8, 102u8, 102u8]);
    assert(f@ =~= seq![102u8, 97u8, 108u8, 115u8, 101u8]);
    assert(no@ =~= seq![110u8, 111u8]);
    assert(one@ =~= seq![49u8]);
    assert(on@ =~= seq![111u8, 110u8]);
    assert(t@ =~= seq![116u8, 114u8, 117u8, 101u8]);
    assert(yes@ =~= seq![121u8, 101u8, 115u8]);
    if bytes_equal(b, &zero) || bytes_equal(b, &off) || bytes_equal(b, &f) || bytes_equal(b, &no) {
        Some(false)
    } else if bytes_equal(b, &one) || bytes_equal(b, &on) || bytes_equal(b, &t) || bytes_equal(
        b,
        &yes,
    ) {
        Some(true)
    } else {
        None
    }
}

impl RuntimeSwitch {
    pub closed spec fn env_spec(&self) -> &'static str {
        self.env
    }

    /// The value the UI last set.
    pub closed spec fn value_spec(&self) -> bool {
        self.value
    }

    /// The A/B state: `AB_NONE`, `AB_OFF` or `AB_ON`.
    pub closed spec fn ab_spec(&self) -> u8 {
        self.ab
    }

    /// What the environment pinned the switch to, if anything.
    pub closed spec fn env_override_spec(&self) -> Option<bool> {
        self.env_override
    }

    /// Whether the switch is on: an A/B decides first, then the environment, then the UI.
    pub open spec fn enabled_spec(&self) -> bool {
        if self.ab_spec() == AB_ON {
            true
        } else if self.ab_spec() == AB_OFF {
            false
        } else {
            match self.env_override_spec() {
                Some(v) => v,
                None => self.value_spec(),
            }
        }
    }

    /// A switch named by `env`, starting at `default_on`, with nothing pinning it.
    pub fn new(env: &'static str, default_on: bool) -> (r: RuntimeSwitch)
        ensures
            r.env_spec() == env,
            r.value_spec() == default_on,
            r.ab_spec() == AB_NONE,
            r.env_override_spec() is None,
    {
        RuntimeSwitch { env, value: default_on, ab: AB_NONE, env_override: None }
    }

    /// Resolve the environment variable's value, read once at start-up. An unrecognised value,
    /// or none, leaves the switch to the UI.
    pub fn with_env_value(self, value: Option<&str>) -> (r: RuntimeSwitch)
        ensures
            r.env_spec() == self.env_spec(),
            r.value_spec() == self.value_spec(),
            r.ab_spec() == self.ab_spec(),
            r.env_override_spec() == match value {
                Some(v) => switch_value_spec(v.spec_bytes()),
                None => None,
            },
    {
        let env_override = match value {
            Some(v) => parse_switch_value(v),
            None => None,
        };
        RuntimeSwitch { env_override, ..self }
    }

    pub fn enabled(&self) -> (r: bool)
        ensures
            r == self.enabled_spec(),
    {
        if self.ab == AB_ON {
            return true;
        }
        if self.ab == AB_OFF {
            return false;
        }
        match self.env_override {
            Some(v) => v,
            None => self.value,
        }
    }

    /// Put this switch under an alternating A/B, overriding both the saved value and the
    /// environment. Returns whether the environment was being overridden.
    pub fn set_ab(&mut self, on: bool) -> (r: bool)
        ensures
            final(self).ab_spec() == (if on {
                AB_ON
            } else {
                AB_OFF
            }),
            final(self).value_spec() == old(self).value_spec(),
            final(self).env_override_spec() == old(self).env_override_spec(),
            final(self).env_spec() == old(self).env_spec(),
            final(self).enabled_spec() == on,
            r == (old(self).env_override_spec() is Some),
    {
        self.ab = if on {
            AB_ON
        } else {
            AB_OFF
        };
        self.pinned_by_env()
    }

    /// Move the switch. An A/B or the environment may still outrank it.
    pub fn set(&mut self, on: bool)
        ensures
            final(self).value_spec() == on,
            final(self).ab_spec() == old(self).ab_spec(),
            final(self).env_override_spec() == old(self).env_override_spec(),
            final(self).env_spec() == old(self).env_spec(),
    {
        self.value = on;
    }

    /// Whether an environment variable is holding this switch.
    pub fn pinned_by_env(&self) -> (r: bool)
        ensures
            r == (self.env_override_spec() is Some),
    {
        self.env_override.is_some()
    }

    pub fn env_name(&self) -> (r: &'static str)
        ensures
            r == self.env_spec(),
    {
        self.env
    }
}

/// Moving a switch that the environment pins, and that no A/B drives, changes nothing.
pub proof fn law_environment_pins_against_the_ui(before: RuntimeSwitch, after: RuntimeSwitch, on: bool)
    requires
        before.env_override_spec() is Some,
        before.ab_spec() == AB_NONE,
        after.value_spec() == on,
        after.ab_spec() == before.ab_spec(),
        after.env_override_spec() == before.env_override_spec(),
    ensures
        after.enabled_spec() == before.enabled_spec(),
{
}

/// Without an A/B or a pinning variable, the switch is exactly what the UI last set.
pub proof fn law_unpinned_switch_follows_the_ui(switch: RuntimeSwitch)
    requires
        switch.env_override_spec() is None,
        switch.ab_spec() == AB_NONE,
    ensures
        switch.enabled_spec() == switch.value_spec(),
{
}

/// Every switch this renderer owns, at its default: the filter atlas, the cache texture pool,
/// blend batching, blend reordering and blend checking.
pub fn all_switches() -> (r: Vec<RuntimeSwitch>)
    ensures
        r@.len() == 5,
        forall|i: int| 0 <= i < 5 ==> (#[trigger] r@[i]).ab_spec() == AB_NONE
            && r@[i].env_override_spec() is None,
        r@[0].value_spec() && r@[1].value_spec() && r@[2].value_spec(),
        !r@[3].value_spec() && !r@[4].value_spec(),
        r@[0].env_spec()@ == "AETHER_FILTER_ATLAS"@,
        r@[1].env_spec()@ == "AETHER_CACHE_TEXTURE_POOL"@,
        r@[2].env_spec()@ == "AETHER_BLEND_BATCH"@,
        r@[3].env_spec()@ == "AETHER_BLEND_REORDER"@,
        r@[4].env_spec()@ == "AETHER_BLENDCHECK"@,
{
    let mut all = Vec::new();
    all.push(RuntimeSwitch::new("AETHER_FILTER_ATLAS", true));
    all.push(RuntimeSwitch::new("AETHER_CACHE_TEXTURE_POOL", true));
    all.push(RuntimeSwitch::new("AETHER_BLEND_BATCH", true));
    all.push(RuntimeSwitch::new("AETHER_BLEND_REORDER", false));
    all.push(RuntimeSwitch::new("AETHER_BLENDCHECK", false));
    all
}

/// Where no two switches share a name, even when ASCII case is ignored, a switch's own name
/// matches that switch and no other: looking it up finds it.
pub proof fn law_each_switch_is_found_by_its_own_name(switches: Seq<RuntimeSwitch>, i: int)
    requires
        0 <= i < switches.len(),
        forall|j: int, k: int|
            0 <= j < switches.len() && 0 <= k < switches.len() && j != k
                ==> !eq_ignore_ascii_case_spec(
                #[trigger] switches[j].env_spec().spec_bytes(),
                #[trigger] switches[k].env_spec().spec_bytes(),
            ),
    ensures
        eq_ignore_ascii_case_spec(
            switches[i].env_spec().spec_bytes(),
            switches[i].env_spec().spec_bytes(),
        ),
        forall|j: int|
            0 <= j < switches.len() && j != i ==> !eq_ignore_ascii_case_spec(
                (#[trigger] switches[j]).env_spec().spec_bytes(),
                switches[i].env_spec().spec_bytes(),
            ),
{
}

/// Find a switch by its environment variable name, without regard to ASCII case. The first
/// match wins.
pub fn by_env_name<'a>(switches: &'a [RuntimeSwitch], name: &str) -> (r: Option<&'a RuntimeSwitch>)
    ensures
        r is None ==> forall|i: int|
            0 <= i < switches@.len() ==> !eq_ignore_ascii_case_spec(
                (#[trigger] switches@[i]).env_spec().spec_bytes(),
                name.spec_bytes(),
            ),
        r is Some ==> exists|i: int|
            0 <= i < switches@.len() && *r->0 == switches@[i] && eq_ignore_ascii_case_spec(
                switches@[i].env_spec().spec_bytes(),
                name.spec_bytes(),
            ) && forall|j: int|
                0 <= j < i ==> !eq_ignore_ascii_case_spec(
                    (#[trigger] switches@[j]).env_spec().spec_bytes(),
                    name.spec_bytes(),
                ),
{
    let mut i: usize = 0;
    while i < switches.len()
        invariant
            i <= switches@.len(),
            forall|j: int|
                0 <= j < i ==> !eq_ignore_ascii_case_spec(
                    (#[trigger] switches@[j]).env_spec().spec_bytes(),
                    name.spec_bytes(),
                ),
        decreases switches.len() - i,
    {
        if eq_ignore_ascii_case(switches[i].env_name(), name) {
            return Some(&switches[i]);
        }
        i += 1;
    }
    None
}

} // verus!
