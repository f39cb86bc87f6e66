//! Tenant limit configuration and the exact messages a limit violation is
//! reported with. Violations are user-correctable configuration states, not
//! fatal errors.

use vstd::prelude::*;
use crate::text::{dec_str, u128_string};

verus! {

/// The abuse-prevention limits of one tenant, with whether they apply at all
/// and whether display-name management is enabled.
#[derive(Clone, Copy)]
pub struct LimitConfig {
    pub limits_enabled: bool,
    pub max_assigned_roles: u64,
    pub max_custom_rules: u64,
    pub max_instructions: u64,
    pub max_web_requests: u64,
    pub set_display_name: bool,
}

pub open spec fn too_many_assigned_msg(n: nat, max: nat) -> Seq<char> {
    "Too many roles are configured to be assigned. ("@ + dec_str(n)
        + " roles are active, maximum is "@ + dec_str(max) + ".)"@
}

pub open spec fn too_many_custom_msg(n: nat, max: nat) -> Seq<char> {
    "Too many custom rules exist. ("@ + dec_str(n) + " custom rules exist, maximum is "@
        + dec_str(max) + ".)"@
}

pub open spec fn too_complex_msg(n: nat, max: nat) -> Seq<char> {
    "Role configuration is too complex. (Complexity is "@ + dec_str(n) + ", maximum is "@
        + dec_str(max) + ".)"@
}

pub open spec fn too_many_lookups_msg(n: nat, max: nat) -> Seq<char> {
    "Role configuration makes too many web requests. (Configuration makes "@ + dec_str(n)
        + " web requests, maximum is "@ + dec_str(max) + ".)"@
}

pub open spec fn too_many_assigned_incl_msg(name: Seq<char>, n: nat, max: nat) -> Seq<char> {
    "Too many roles are configured to be assigned. (Including '"@ + name + "', "@ + dec_str(n)
        + " roles are active, maximum is "@ + dec_str(max) + ".)"@
}

pub open spec fn too_many_custom_incl_msg(name: Seq<char>, n: nat, max: nat) -> Seq<char> {
    "Too many custom rules exist. (Including '"@ + name + "', "@ + dec_str(n)
        + " rules exist, maximum is "@ + dec_str(max) + ".)"@
}

pub fn mk_too_many_assigned(n: u128, max: u64) -> (s: String)
    ensures
        s@ == too_many_assigned_msg(n as nat, max as nat),
{
    let mut s = String::new();
    s.push_str("Too many roles are configured to be assigned. (");
    s.push_str(u128_string(n).as_str());
    s.push_str(" roles are active, maximum is ");
    s.push_str(u128_string(max as u128).as_str());
    s.push_str(".)");
    assert(s@ =~= too_many_assigned_msg(n as nat, max as nat));
    s
}

pub fn mk_too_many_custom(n: u128, max: u64) -> (s: String)
    ensures
        s@ == too_many_custom_msg(n as nat, max as nat),
{
    let mut s = String::new();
    s.push_str("Too many custom rules exist. (");
    s.push_str(u128_string(n).as_str());
    s.push_str(" custom rules exist, maximum is ");
    s.push_str(u128_string(max as u128).as_str());
    s.push_str(".)");
    assert(s@ =~= too_many_custom_msg(n as nat, max as nat));
    s
}

pub fn mk_too_complex(n: u128, max: u64) -> (s: String)
    ensures
        s@ == too_complex_msg(n as nat, max as nat),
{
    let mut s = String::new();
    s.push_str("Role configuration is too complex. (Complexity is ");
    s.push_str(u128_string(n).as_str());
    s.push_str(", maximum is ");
    s.push_str(u128_string(max as u128).as_str());
    s.push_str(".)");
    assert(s@ =~= too_complex_msg(n as nat, max as nat));
    s
}

pub fn mk_too_many_lookups(n: u128, max: u64) -> (s: String)
    ensures
        s@ == too_many_lookups_msg(n as nat, max as nat),
{
    let mut s = String::new();
    s.push_str("Role configuration makes too many web requests. (Configuration makes ");
    s.push_str(u128_string(n).as_str());
    s.push_str(" web requests, maximum is ");
    s.push_str(u128_string(max as u128).as_str());
    s.push_str(".)");
    assert(s@ =~= too_many_lookups_msg(n as nat, max as nat));
    s
}

pub fn mk_too_many_assigned_incl(name: &str, n: u128, max: u64) -> (s: String)
    ensures
        s@ == too_many_assigned_incl_msg(name@, n as nat, max as nat),
{
    let mut s = String::new();
    s.push_str("Too many roles are configured to be assigned. (Including '");
    s.push_str(name);
    s.push_str("', ");
    s.push_str(u128_string(n).as_str());
    s.push_str(" roles are active, maximum is ");
    s.push_str(u128_string(max as u128).as_str());
    s.push_str(".)");
    assert(s@ =~= too_many_assigned_incl_msg(name@, n as nat, max as nat));
    s
}

pub fn mk_too_many_custom_incl(name: &str, n: u128, max: u64) -> (s: String)
    ensures
        s@ == too_many_custom_incl_msg(name@, n as nat, max as nat),
{
    let mut s = String::new();
    s.push_str("Too many custom rules exist. (Including '");
    s.push_str(name);
    s.push_str("', ");
    s.push_str(u128_string(n).as_str());
    s.push_str(" rules exist, maximum is ");
    s.push_str(u128_string(max as u128).as_str());
    s.push_str(".)");
    assert(s@ =~= too_many_custom_incl_msg(name@, n as nat, max as nat));
    s
}

} // verus!
