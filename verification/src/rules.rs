//! Rule conditions and compiled verification sets.
//!
//! A condition is a word of lowercase attribute letters; an identity
//! satisfies it when it carries every one of those attribute tags. Built-in
//! rules come from a fixed registry; custom rules are parsed from condition
//! text. A compiled set aggregates the active rules of one tenant together
//! with their target groups and cost metrics.

use vstd::prelude::*;
use vstd::string::StrSliceExecFns;
use crate::text::{dec_str, str_eq, u128_string};

verus! {

/// A condition may name at most this many attribute letters.
pub const MAX_CONDITION_LEN: usize = 64;

/// The attribute letters a well-formed rule may test.
pub open spec fn rule_wf(attrs: Seq<char>) -> bool {
    attrs.len() <= MAX_CONDITION_LEN && forall|i: int|
        0 <= i < attrs.len() ==> 'a' <= #[trigger] attrs[i] <= 'z'
}

/// A custom condition is a non-empty well-formed word of attribute letters.
pub open spec fn cond_wf(s: Seq<char>) -> bool {
    rule_wf(s) && s.len() >= 1
}

/// An identity satisfies a rule when it carries every tested attribute.
pub open spec fn rule_holds(attrs: Seq<char>, ident: Seq<char>) -> bool {
    forall|i: int| 0 <= i < attrs.len() ==> ident.contains(#[trigger] attrs[i])
}

/// The attributes the fixed built-in registry assigns to a rule name, if any.
pub open spec fn builtin_attrs(name: Seq<char>) -> Option<Seq<char>> {
    if name == "verified"@ {
        Some(Seq::<char>::empty())
    } else if name == "premium"@ {
        Some(seq!['p'])
    } else if name == "staff"@ {
        Some(seq!['s'])
    } else {
        None
    }
}

/// The message a malformed custom condition is rejected with.
pub open spec fn parse_err_msg() -> Seq<char> {
    "expected 1 to 64 lowercase attribute letters"@
}

/// One parsed or built-in condition.
#[derive(Debug)]
pub struct VerificationRule {
    pub attrs: Vec<char>,
}

impl VerificationRule {
    pub open spec fn wf(&self) -> bool {
        rule_wf(self.attrs@)
    }

    /// Whether a rule name is in the built-in registry.
    pub fn has_builtin(name: &str) -> (r: bool)
        ensures
            r == builtin_attrs(name@).is_some(),
    {
        str_eq(name, "verified") || str_eq(name, "premium") || str_eq(name, "staff")
    }

    /// The built-in rule for a name, if the registry has one.
    pub fn builtin(name: &str) -> (r: Option<VerificationRule>)
        ensures
            match r {
                Some(rule) => builtin_attrs(name@) == Some(rule.attrs@) && rule.wf(),
                None => builtin_attrs(name@).is_none(),
            },
    {
        if str_eq(name, "verified") {
            let attrs: Vec<char> = Vec::new();
            assert(attrs@ =~= Seq::<char>::empty());
            Some(VerificationRule { attrs })
        } else if str_eq(name, "premium") {
            let mut attrs: Vec<char> = Vec::new();
            attrs.push('p');
            assert(attrs@ =~= seq!['p']);
            Some(VerificationRule { attrs })
        } else if str_eq(name, "staff") {
            let mut attrs: Vec<char> = Vec::new();
            attrs.push('s');
            assert(attrs@ =~= seq!['s']);
            Some(VerificationRule { attrs })
        } else {
            None
        }
    }

    /// Parses custom condition text: it must be a non-empty word of at most
    /// `MAX_CONDITION_LEN` lowercase attribute letters.
    pub fn from_str(condition: &str) -> (r: Result<VerificationRule, String>)
        ensures
            match r {
                Ok(rule) => cond_wf(condition@) && rule.attrs@ == condition@ && rule.wf(),
                Err(m) => !cond_wf(condition@) && m@ == parse_err_msg(),
            },
    {
        let n = condition.unicode_len();
        if n < 1 || n > MAX_CONDITION_LEN {
            return Err("expected 1 to 64 lowercase attribute letters".to_owned());
        }
        let mut attrs: Vec<char> = Vec::new();
        let mut i: usize = 0;
        while i < n
            invariant
                0 <= i <= n,
                attrs@ =~= condition@.subrange(0, i as int),
                forall|j: int| 0 <= j < i ==> 'a' <= #[trigger] condition@[j] <= 'z',
            decreases n - i,
        {
            let c = condition.get_char(i);
            if c < 'a' || c > 'z' {
                return Err("expected 1 to 64 lowercase attribute letters".to_owned());
            }
            attrs.push(c);
            i = i + 1;
        }
        assert(attrs@ =~= condition@);
        Ok(VerificationRule { attrs })
    }

    /// Evaluates the rule against an identity's attribute tags.
    pub fn holds(&self, ident: &Vec<char>) -> (r: bool)
        ensures
            r == rule_holds(self.attrs@, ident@),
    {
        let mut i: usize = 0;
        while i < self.attrs.len()
            invariant
                0 <= i <= self.attrs@.len(),
                forall|j: int| 0 <= j < i ==> ident@.contains(#[trigger] self.attrs@[j]),
            decreases self.attrs@.len() - i,
        {
            if !has_tag(ident, self.attrs[i]) {
                return false;
            }
            i = i + 1;
        }
        true
    }
}

/// Whether an identity's tag list carries a given attribute letter.
pub fn has_tag(ident: &Vec<char>, c: char) -> (r: bool)
    ensures
        r == ident@.contains(c),
{
    let mut i: usize = 0;
    while i < ident.len()
        invariant
            0 <= i <= ident@.len(),
            forall|j: int| 0 <= j < i ==> #[trigger] ident@[j] != c,
        decreases ident@.len() - i,
    {
        if ident[i] == c {
            return true;
        }
        i = i + 1;
    }
    false
}

/// One active rule of a compiled set, bound to its target group.
pub struct SetEntry {
    pub name: String,
    pub group: u64,
    pub rule: VerificationRule,
}

/// The mathematical reading of a set entry.
pub ghost struct EntryV {
    pub name: Seq<char>,
    pub group: u64,
    pub attrs: Seq<char>,
}

pub open spec fn entry_view(e: SetEntry) -> EntryV {
    EntryV { name: e.name@, group: e.group, attrs: e.rule.attrs@ }
}

/// The instruction cost of a compiled set: one instruction per rule plus one
/// per tested attribute.
pub open spec fn total_instructions(es: Seq<EntryV>) -> nat
    decreases es.len(),
{
    if es.len() == 0 {
        0
    } else {
        total_instructions(es.drop_last()) + 1 + es.last().attrs.len()
    }
}

/// The external-lookup cost of a compiled set: evaluating it resolves each
/// tested attribute once.
pub open spec fn total_lookups(es: Seq<EntryV>) -> nat
    decreases es.len(),
{
    if es.len() == 0 {
        0
    } else {
        total_lookups(es.drop_last()) + es.last().attrs.len()
    }
}

/// The rendering of one entry in an explanation of a compiled set.
pub open spec fn render_entry(e: EntryV) -> Seq<char> {
    "Rule '"@ + e.name + "' assigns group "@ + dec_str(e.group as nat) + (if e.attrs.len() == 0 {
        " to every verified identity.\n"@
    } else {
        " when the identity has tags '"@ + e.attrs + "'.\n"@
    })
}

/// The rendering of a whole compiled set.
pub open spec fn render_set(es: Seq<EntryV>) -> Seq<char>
    decreases es.len(),
{
    if es.len() == 0 {
        Seq::<char>::empty()
    } else {
        render_set(es.drop_last()) + render_entry(es.last())
    }
}

/// All active rules of one tenant, compiled together. Immutable once built.
pub struct VerificationSet {
    pub entries: Vec<SetEntry>,
}

impl VerificationSet {
    pub open spec fn view_entries(&self) -> Seq<EntryV> {
        self.entries@.map_values(|e: SetEntry| entry_view(e))
    }

    pub open spec fn wf(&self) -> bool {
        forall|i: int| 0 <= i < self.entries@.len() ==> (#[trigger] self.entries@[i]).rule.wf()
    }

    /// The aggregate instruction cost of the set.
    pub fn instruction_count(&self) -> (r: u128)
        requires
            self.wf(),
        ensures
            r == total_instructions(self.view_entries()),
    {
        let mut total: u128 = 0;
        let mut i: usize = 0;
        while i < self.entries.len()
            invariant
                0 <= i <= self.entries@.len(),
                total == total_instructions(self.view_entries().subrange(0, i as int)),
                total <= 65 * i,
            decreases self.entries@.len() - i,
        {
            assert(self.view_entries().subrange(0, i + 1).drop_last() =~= self.view_entries()
                .subrange(0, i as int));
            assert(self.entries@[i as int].rule.wf());
            total = total + 1 + self.entries[i].rule.attrs.len() as u128;
            i = i + 1;
        }
        assert(self.view_entries().subrange(0, i as int) =~= self.view_entries());
        total
    }

    /// The aggregate external-lookup cost of the set.
    pub fn max_web_requests(&self) -> (r: u128)
        requires
            self.wf(),
        ensures
            r == total_lookups(self.view_entries()),
    {
        let mut total: u128 = 0;
        let mut i: usize = 0;
        while i < self.entries.len()
            invariant
                0 <= i <= self.entries@.len(),
                total == total_lookups(self.view_entries().subrange(0, i as int)),
                total <= 64 * i,
            decreases self.entries@.len() - i,
        {
            assert(self.view_entries().subrange(0, i + 1).drop_last() =~= self.view_entries()
                .subrange(0, i as int));
            assert(self.entries@[i as int].rule.wf());
            total = total + self.entries[i].rule.attrs.len() as u128;
            i = i + 1;
        }
        assert(self.view_entries().subrange(0, i as int) =~= self.view_entries());
        total
    }

    /// Renders the compiled set for an administrator.
    pub fn render(&self) -> (s: String)
        ensures
            s@ == render_set(self.view_entries()),
    {
        let mut s = String::new();
        let mut i: usize = 0;
        while i < self.entries.len()
            invariant
                0 <= i <= self.entries@.len(),
                s@ == render_set(self.view_entries().subrange(0, i as int)),
            decreases self.entries@.len() - i,
        {
            assert(self.view_entries().subrange(0, i + 1).drop_last() =~= self.view_entries()
                .subrange(0, i as int));
            let entry = &self.entries[i];
            s.push_str("Rule '");
            s.push_str(entry.name.as_str());
            s.push_str("' assigns group ");
            let group_str = u128_string(entry.group as u128);
            s.push_str(group_str.as_str());
            if entry.rule.attrs.len() == 0 {
                s.push_str(" to every verified identity.\n");
            } else {
                s.push_str(" when the identity has tags '");
                let mut j: usize = 0;
                while j < entry.rule.attrs.len()
                    invariant
                        0 <= j <= entry.rule.attrs@.len(),
                        s@ == render_set(self.view_entries().subrange(0, i as int)) + "Rule '"@
                            + entry.name@ + "' assigns group "@ + dec_str(entry.group as nat)
                            + " when the identity has tags '"@ + entry.rule.attrs@.subrange(
                            0,
                            j as int,
                        ),
                    decreases entry.rule.attrs@.len() - j,
                {
                    s.push(entry.rule.attrs[j]);
                    assert(entry.rule.attrs@.subrange(0, j + 1) =~= entry.rule.attrs@.subrange(
                        0,
                        j as int,
                    ).push(entry.rule.attrs@[j as int]));
                    j = j + 1;
                }
                assert(entry.rule.attrs@.subrange(0, j as int) =~= entry.rule.attrs@);
                s.push_str("'.\n");
            }
            assert(s@ =~= render_set(self.view_entries().subrange(0, i as int)) + render_entry(
                self.view_entries()[i as int],
            ));
            i = i + 1;
        }
        assert(self.view_entries().subrange(0, i as int) =~= self.view_entries());
        s
    }
}

} // verus!
