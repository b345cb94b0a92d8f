//! The detection-rule data model: a rule's shape, the filter predicate a rule
//! applies after one of its patterns hits, the alert record, and the built-in
//! fallback rule set.

use crate::frame::NextProto;
use vstd::prelude::*;

verus! {

/// The protocol a rule asks for. Only `Tcp` restricts the frames a rule can
/// match: a rule that asks for TCP rejects every non-TCP frame, while `Udp`
/// and `Any` leave the frame's protocol unconstrained.
#[derive(Clone, Copy, Debug, PartialEq, Eq, Structural)]
pub enum Protocol {
    Tcp,
    Udp,
    Any,
}

/// One detection rule. A rule with no `pattern` can never match; the other
/// optional fields are filters applied only after a pattern hit.
#[derive(Clone, Debug, PartialEq, Eq)]
pub struct IdsRule {
    pub name: String,
    pub protocol: Protocol,
    pub src_ip: Option<String>,
    pub dst_port: Option<u16>,
    pub pattern: Option<String>,
}

/// One raised alert: the matching rule's name, the frame's source address,
/// and the bounded, newline-normalized payload preview.
#[derive(Clone, Debug, PartialEq, Eq)]
pub struct Alert {
    pub rule_name: String,
    pub source_ip: String,
    pub payload_preview: String,
}

/// The filter predicate of a rule, checked after one of its patterns was
/// found in the payload: the protocol must be TCP if the rule requires TCP,
/// a required destination port must be carried and equal, and a required
/// source address must equal the frame's.
pub open spec fn rule_passes(
    rule: IdsRule,
    proto: NextProto,
    dst_port: Option<u16>,
    src: Seq<char>,
) -> bool {
    &&& (rule.protocol == Protocol::Tcp ==> proto == NextProto::Tcp)
    &&& (match rule.dst_port {
        Some(p) => dst_port == Some(p),
        None => true,
    })
    &&& (match rule.src_ip {
        Some(s) => s@ == src,
        None => true,
    })
}

/// Checks a rule's filters against a frame's decoded fields.
pub fn check_rule(rule: &IdsRule, proto: NextProto, dst_port: Option<u16>, src: &String) -> (r:
    bool)
    ensures
        r == rule_passes(*rule, proto, dst_port, src@),
{
    if matches!(rule.protocol, Protocol::Tcp) && !matches!(proto, NextProto::Tcp) {
        return false;
    }
    if let Some(p) = rule.dst_port {
        match dst_port {
            Some(d) => {
                if d != p {
                    return false;
                }
            },
            None => {
                return false;
            },
        }
    }
    if let Some(ip) = &rule.src_ip {
        if !ip.eq(src) {
            return false;
        }
    }
    true
}

/// One of the built-in rules: TCP-only, no port or source filter, with the
/// given name and pattern.
pub open spec fn is_default_rule(r: IdsRule, name: Seq<char>, pattern: Seq<char>) -> bool {
    &&& r.name@ == name
    &&& r.protocol == Protocol::Tcp
    &&& r.src_ip is None
    &&& r.dst_port is None
    &&& r.pattern is Some
    &&& r.pattern.unwrap()@ == pattern
}

/// The fixed built-in rule set that loading falls back to: a credential-path
/// probe, an SQL-injection signature, and a shell-invocation signature.
pub open spec fn is_default_rules(rs: Seq<IdsRule>) -> bool {
    &&& rs.len() == 3
    &&& is_default_rule(rs[0], "Tentativa de Acesso a Admin"@, "admin"@)
    &&& is_default_rule(rs[1], "Tentativa de SQL Injection"@, "UNION SELECT"@)
    &&& is_default_rule(rs[2], "Detectado Shellcode/Bin/Sh"@, "/bin/sh"@)
}

fn default_rule(name: &str, pattern: &str) -> (r: IdsRule)
    ensures
        is_default_rule(r, name@, pattern@),
{
    IdsRule {
        name: String::from_str(name),
        protocol: Protocol::Tcp,
        src_ip: None,
        dst_port: None,
        pattern: Some(String::from_str(pattern)),
    }
}

/// Builds the built-in fallback rule set. Every call returns the same fixed
/// sequence of rules.
pub fn default_rules() -> (r: Vec<IdsRule>)
    ensures
        is_default_rules(r@),
{
    let mut rs: Vec<IdsRule> = Vec::new();
    rs.push(default_rule("Tentativa de Acesso a Admin", "admin"));
    rs.push(default_rule("Tentativa de SQL Injection", "UNION SELECT"));
    rs.push(default_rule("Detectado Shellcode/Bin/Sh", "/bin/sh"));
    rs
}

} // verus!
