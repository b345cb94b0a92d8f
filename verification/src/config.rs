//! Loading the detection-rule set from configuration text: a JSON array of
//! rule objects is validated all-or-nothing, and anything else -- unreadable
//! input, malformed JSON, a failed structural check -- falls back to the fixed
//! built-in rule set, never to a partially loaded one. The parse is modelled
//! exactly: the contracts say which rules a text loads as.

use crate::engine::{
    ac_build_ok, inspect_post, lemma_no_patterns_no_alert, patterns_of, IdsEngine,
};
use crate::frame::FrameView;
use crate::rules::{default_rules, is_default_rules, Alert, IdsRule, Protocol};
use crate::text::str_eq;
use vstd::prelude::*;

verus! {

#[verifier::external_type_specification]
#[verifier::external_body]
pub struct ExValue(serde_json::Value);

/// A scalar configuration value, as far as the rule format reads one: JSON
/// `null`, a string, an integer that fits a `u64`, or anything else (a
/// boolean, another number, a nested array or object), which no rule field
/// accepts.
pub enum ConfigValue {
    Null,
    Text(String),
    UInt(u64),
    Other,
}

/// One element of the configuration array: an object's fields, or a value
/// that is no object.
pub enum ConfigItem {
    Obj(Vec<(String, ConfigValue)>),
    NotObj,
}

/// A whole configuration document: an array of elements, or a document that
/// is no array.
pub enum ConfigDoc {
    Arr(Vec<ConfigItem>),
    NotArr,
}

/// The mathematical form of a scalar configuration value.
pub ghost enum JsonPrim {
    Null,
    Text(Seq<char>),
    UInt(u64),
    Other,
}

/// The mathematical form of one array element.
pub ghost enum JsonItem {
    Obj(Seq<(Seq<char>, JsonPrim)>),
    NotObj,
}

/// The mathematical form of a configuration document.
pub ghost enum JsonDoc {
    Arr(Seq<JsonItem>),
    NotArr,
}

/// What a carried scalar stands for.
pub open spec fn prim_model(v: ConfigValue) -> JsonPrim {
    match v {
        ConfigValue::Null => JsonPrim::Null,
        ConfigValue::Text(t) => JsonPrim::Text(t@),
        ConfigValue::UInt(x) => JsonPrim::UInt(x),
        ConfigValue::Other => JsonPrim::Other,
    }
}

/// What a carried element stands for.
pub open spec fn item_model(it: ConfigItem) -> JsonItem {
    match it {
        ConfigItem::Obj(fields) => JsonItem::Obj(
            fields@.map_values(|f: (String, ConfigValue)| (f.0@, prim_model(f.1))),
        ),
        ConfigItem::NotObj => JsonItem::NotObj,
    }
}

/// What a carried document stands for.
pub open spec fn doc_model(d: ConfigDoc) -> JsonDoc {
    match d {
        ConfigDoc::Arr(items) => JsonDoc::Arr(items@.map_values(|it: ConfigItem| item_model(it))),
        ConfigDoc::NotArr => JsonDoc::NotArr,
    }
}

/// What parsing a configuration text yields: `None` for text that is not
/// well-formed JSON, and otherwise the document's shape, with object fields
/// resolved (for a repeated key the last value stands). The result depends on
/// the text alone.
pub uninterp spec fn config_doc_of(s: Seq<char>) -> Option<JsonDoc>;

/// Relies on `serde_json::Value`'s variants (and `Number::as_u64`): moves one
/// parsed scalar into the library's shape, one variant for one -- strings,
/// `u64`-representable numbers and `null` are kept, everything else
/// (booleans, other numbers, nested values) is unusable.
#[verifier::external_body]
fn prim_from_value(v: serde_json::Value) -> ConfigValue {
    match v {
        serde_json::Value::Null => ConfigValue::Null,
        serde_json::Value::String(t) => ConfigValue::Text(t),
        serde_json::Value::Number(n) => n.as_u64().map_or(ConfigValue::Other, ConfigValue::UInt),
        _ => ConfigValue::Other,
    }
}

/// Relies on `serde_json::Value`'s variants: moves one parsed array element
/// into the library's shape -- an object's resolved fields in the parsed
/// map's order, or the mark that it is no object.
#[verifier::external_body]
fn item_from_value(v: serde_json::Value) -> ConfigItem {
    match v {
        serde_json::Value::Object(m) => ConfigItem::Obj(
            m.into_iter().map(|(k, f)| (k, prim_from_value(f))).collect(),
        ),
        _ => ConfigItem::NotObj,
    }
}

/// Relies on `serde_json::Value`'s variants: moves one parsed document into
/// the library's shape -- the array's elements in order, or the mark that it
/// is no array.
#[verifier::external_body]
fn doc_from_value(v: serde_json::Value) -> ConfigDoc {
    match v {
        serde_json::Value::Array(items) => ConfigDoc::Arr(
            items.into_iter().map(item_from_value).collect(),
        ),
        _ => ConfigDoc::NotArr,
    }
}

/// Relies on `serde_json::from_str::<Value>`, with the parse moved into the
/// library's shape by the converters above: `Some` exactly when the text is
/// well-formed JSON, carrying the parse's shape.
#[verifier::external_body]
fn parse_config(s: &str) -> (r: Option<ConfigDoc>)
    ensures
        r is Some <==> config_doc_of(s@) is Some,
        r is Some ==> config_doc_of(s@) == Some(doc_model(r.unwrap())),
{
    let v: serde_json::Value = serde_json::from_str(s).ok()?;
    Some(doc_from_value(v))
}

/// The value under a key: the first field carrying it.
pub open spec fn field_lookup(fields: Seq<(Seq<char>, JsonPrim)>, key: Seq<char>) -> Option<
    JsonPrim,
>
    decreases fields.len(),
{
    if fields.len() == 0 {
        None
    } else if fields[0].0 == key {
        Some(fields[0].1)
    } else {
        field_lookup(fields.drop_first(), key)
    }
}

/// One rule as the configuration names it.
pub ghost struct RuleModel {
    pub name: Seq<char>,
    pub protocol: Protocol,
    pub src_ip: Option<Seq<char>>,
    pub dst_port: Option<u16>,
    pub pattern: Option<Seq<char>>,
}

/// The protocol named by a configuration string: only `"tcp"` and `"udp"`
/// are accepted.
pub open spec fn protocol_named(s: Seq<char>) -> Option<Protocol> {
    if s == "tcp"@ {
        Some(Protocol::Tcp)
    } else if s == "udp"@ {
        Some(Protocol::Udp)
    } else {
        None
    }
}

/// An optional string field: absent and `null` mean "no filter", a string is
/// taken, anything else fails the structural check.
pub open spec fn opt_text_field(fields: Seq<(Seq<char>, JsonPrim)>, key: Seq<char>) -> Option<
    Option<Seq<char>>,
> {
    match field_lookup(fields, key) {
        None => Some(None),
        Some(JsonPrim::Null) => Some(None),
        Some(JsonPrim::Text(t)) => Some(Some(t)),
        Some(_) => None,
    }
}

/// The rule one array element names: `name` and a recognized `protocol` are
/// required, `src_ip`, `dst_port` (0..=65535) and `pattern` optional; any
/// field of the wrong shape fails the whole rule.
pub open spec fn rule_model_of(it: JsonItem) -> Option<RuleModel> {
    match it {
        JsonItem::NotObj => None,
        JsonItem::Obj(fields) => {
            let name = match field_lookup(fields, "name"@) {
                Some(JsonPrim::Text(t)) => Some(t),
                _ => None::<Seq<char>>,
            };
            let protocol = match field_lookup(fields, "protocol"@) {
                Some(JsonPrim::Text(t)) => protocol_named(t),
                _ => None::<Protocol>,
            };
            let dst_port = match field_lookup(fields, "dst_port"@) {
                None => Some(None),
                Some(JsonPrim::Null) => Some(None),
                Some(JsonPrim::UInt(x)) => if x <= 65535 {
                    Some(Some(x as u16))
                } else {
                    None
                },
                Some(_) => None::<Option<u16>>,
            };
            if name is Some && protocol is Some && opt_text_field(fields, "src_ip"@) is Some
                && dst_port is Some && opt_text_field(fields, "pattern"@) is Some {
                Some(
                    RuleModel {
                        name: name.unwrap(),
                        protocol: protocol.unwrap(),
                        src_ip: opt_text_field(fields, "src_ip"@).unwrap(),
                        dst_port: dst_port.unwrap(),
                        pattern: opt_text_field(fields, "pattern"@).unwrap(),
                    },
                )
            } else {
                None
            }
        },
    }
}

/// The rules a sequence of array elements names: every element must name one.
pub open spec fn rules_model_of_items(items: Seq<JsonItem>) -> Option<Seq<RuleModel>>
    decreases items.len(),
{
    if items.len() == 0 {
        Some(Seq::empty())
    } else {
        match rules_model_of_items(items.drop_last()) {
            None => None,
            Some(init) => match rule_model_of(items.last()) {
                None => None,
                Some(m) => Some(init.push(m)),
            },
        }
    }
}

/// The rules a document names: it must be an array whose every element names
/// a rule; an empty array names the empty rule set.
pub open spec fn rules_model_of(d: JsonDoc) -> Option<Seq<RuleModel>> {
    match d {
        JsonDoc::Arr(items) => rules_model_of_items(items),
        JsonDoc::NotArr => None,
    }
}

/// The built-in fallback set, as models.
pub open spec fn default_models() -> Seq<RuleModel> {
    seq![
        RuleModel {
            name: "Tentativa de Acesso a Admin"@,
            protocol: Protocol::Tcp,
            src_ip: None,
            dst_port: None,
            pattern: Some("admin"@),
        },
        RuleModel {
            name: "Tentativa de SQL Injection"@,
            protocol: Protocol::Tcp,
            src_ip: None,
            dst_port: None,
            pattern: Some("UNION SELECT"@),
        },
        RuleModel {
            name: "Detectado Shellcode/Bin/Sh"@,
            protocol: Protocol::Tcp,
            src_ip: None,
            dst_port: None,
            pattern: Some("/bin/sh"@),
        },
    ]
}

/// The rule sequence a run loads from configuration text: the rules the text
/// names when it is well-formed JSON naming a rule array, and the fixed
/// built-in defaults when the text is absent, malformed, or fails the
/// structural check -- never a partial list.
pub open spec fn loaded_rules_of(content: Option<Seq<char>>) -> Seq<RuleModel> {
    match content {
        None => default_models(),
        Some(s) => match config_doc_of(s) {
            None => default_models(),
            Some(d) => match rules_model_of(d) {
                None => default_models(),
                Some(rs) => rs,
            },
        },
    }
}

/// The rule reads as its model: every field agrees.
pub open spec fn rule_matches(r: IdsRule, m: RuleModel) -> bool {
    &&& r.name@ == m.name
    &&& r.protocol == m.protocol
    &&& r.src_ip.deep_view() == m.src_ip
    &&& r.dst_port == m.dst_port
    &&& r.pattern.deep_view() == m.pattern
}

/// The rule sequence reads as the models, in order.
pub open spec fn rules_match(rs: Seq<IdsRule>, ms: Seq<RuleModel>) -> bool {
    rs.len() == ms.len() && forall|i: int|
        0 <= i < rs.len() ==> rule_matches(#[trigger] rs[i], ms[i])
}

/// The patterns the modelled rules contribute, in rule order.
pub open spec fn patterns_of_models(ms: Seq<RuleModel>) -> Seq<Seq<char>>
    decreases ms.len(),
{
    if ms.len() == 0 {
        Seq::empty()
    } else {
        let init = patterns_of_models(ms.drop_last());
        if ms.last().pattern is Some {
            init.push(ms.last().pattern.unwrap())
        } else {
            init
        }
    }
}

/// Matching rules contribute the same patterns.
pub proof fn lemma_patterns_match(rs: Seq<IdsRule>, ms: Seq<RuleModel>)
    requires
        rules_match(rs, ms),
    ensures
        patterns_of(rs) == patterns_of_models(ms),
    decreases rs.len(),
{
    if rs.len() > 0 {
        assert(rules_match(rs.drop_last(), ms.drop_last()));
        lemma_patterns_match(rs.drop_last(), ms.drop_last());
        assert(rule_matches(rs[rs.len() - 1], ms[ms.len() - 1]));
        assert(rs.last() == rs[rs.len() - 1] && ms.last() == ms[ms.len() - 1]);
        if rs.last().pattern is Some {
            assert(patterns_of(rs) =~= patterns_of_models(ms));
        }
    }
}

/// Parses a configuration protocol string.
pub fn protocol_from_str(s: &str) -> (r: Option<Protocol>)
    ensures
        r == protocol_named(s@),
{
    if str_eq(s, "tcp") {
        Some(Protocol::Tcp)
    } else if str_eq(s, "udp") {
        Some(Protocol::Udp)
    } else {
        None
    }
}

/// A destination port from a configuration number: accepted only in
/// 0..=65535.
pub fn port_from_u64(x: u64) -> (r: Option<u16>)
    ensures
        r == if x <= 65535 {
            Some(x as u16)
        } else {
            None::<u16>
        },
{
    if x <= 65535 {
        Some(x as u16)
    } else {
        None
    }
}

/// Finds the first field carrying a key.
fn lookup_field<'a>(fields: &'a Vec<(String, ConfigValue)>, key: &str) -> (r: Option<
    &'a ConfigValue,
>)
    ensures
        ({
            let gfields = fields@.map_values(|f: (String, ConfigValue)| (f.0@, prim_model(f.1)));
            match r {
                None => field_lookup(gfields, key@) is None,
                Some(v) => field_lookup(gfields, key@) == Some(prim_model(*v)),
            }
        }),
{
    let ghost gfields = fields@.map_values(|f: (String, ConfigValue)| (f.0@, prim_model(f.1)));
    let mut i: usize = 0;
    proof {
        assert(gfields.skip(0) =~= gfields);
    }
    while i < fields.len()
        invariant
            i <= fields@.len(),
            gfields == fields@.map_values(|f: (String, ConfigValue)| (f.0@, prim_model(f.1))),
            field_lookup(gfields.skip(i as int), key@) == field_lookup(gfields, key@),
            forall|j: int| 0 <= j < i ==> (#[trigger] gfields[j]).0 != key@,
        decreases fields@.len() - i,
    {
        proof {
            assert(gfields[i as int] == (fields@[i as int].0@, prim_model(fields@[i as int].1)));
            assert(gfields.skip(i as int)[0] == gfields[i as int]);
        }
        if str_eq(fields[i].0.as_str(), key) {
            return Some(&fields[i].1);
        }
        proof {
            assert(gfields.skip(i as int).drop_first() =~= gfields.skip(i + 1));
        }
        i = i + 1;
    }
    proof {
        assert(gfields.skip(i as int).len() == 0);
    }
    None
}

/// Reads an optional string field of one rule object.
fn optional_string_field(fields: &Vec<(String, ConfigValue)>, key: &str) -> (r: Option<
    Option<String>,
>)
    ensures
        ({
            let gfields = fields@.map_values(|f: (String, ConfigValue)| (f.0@, prim_model(f.1)));
            match r {
                None => opt_text_field(gfields, key@) is None,
                Some(o) => opt_text_field(gfields, key@) == Some(o.deep_view()),
            }
        }),
{
    match lookup_field(fields, key) {
        None => Some(None),
        Some(ConfigValue::Null) => Some(None),
        Some(ConfigValue::Text(t)) => Some(Some(t.clone())),
        Some(_) => None,
    }
}

/// Shapes one array element into a rule, as `rule_model_of` names it.
fn rule_from_item(it: &ConfigItem) -> (r: Option<IdsRule>)
    ensures
        match r {
            None => rule_model_of(item_model(*it)) is None,
            Some(rule) => rule_model_of(item_model(*it)) is Some && rule_matches(
                rule,
                rule_model_of(item_model(*it)).unwrap(),
            ),
        },
{
    let fields = match it {
        ConfigItem::Obj(fields) => fields,
        ConfigItem::NotObj => {
            return None;
        },
    };
    let name = match lookup_field(fields, "name") {
        Some(ConfigValue::Text(t)) => t.clone(),
        _ => {
            return None;
        },
    };
    let protocol = match lookup_field(fields, "protocol") {
        Some(ConfigValue::Text(t)) => match protocol_from_str(t.as_str()) {
            Some(p) => p,
            None => {
                return None;
            },
        },
        _ => {
            return None;
        },
    };
    let src_ip = match optional_string_field(fields, "src_ip") {
        Some(o) => o,
        None => {
            return None;
        },
    };
    let dst_port = match lookup_field(fields, "dst_port") {
        None => None,
        Some(ConfigValue::Null) => None,
        Some(ConfigValue::UInt(x)) => match port_from_u64(*x) {
            Some(p) => Some(p),
            None => {
                return None;
            },
        },
        Some(_) => {
            return None;
        },
    };
    let pattern = match optional_string_field(fields, "pattern") {
        Some(o) => o,
        None => {
            return None;
        },
    };
    Some(IdsRule { name, protocol, src_ip, dst_port, pattern })
}

/// Shapes a parsed document into the rule sequence it names: `None` when the
/// document is no array or any element fails the structural check. An empty
/// array is a valid, empty rule set.
fn rules_from_doc(doc: &ConfigDoc) -> (r: Option<Vec<IdsRule>>)
    ensures
        match r {
            None => rules_model_of(doc_model(*doc)) is None,
            Some(rs) => rules_model_of(doc_model(*doc)) is Some && rules_match(
                rs@,
                rules_model_of(doc_model(*doc)).unwrap(),
            ),
        },
{
    let items = match doc {
        ConfigDoc::Arr(items) => items,
        ConfigDoc::NotArr => {
            return None;
        },
    };
    let ghost gitems = items@.map_values(|it: ConfigItem| item_model(it));
    let mut rules: Vec<IdsRule> = Vec::new();
    let ghost mut ms: Seq<RuleModel> = Seq::empty();
    let mut i: usize = 0;
    proof {
        assert(gitems.take(0) =~= Seq::<JsonItem>::empty());
    }
    while i < items.len()
        invariant
            i <= items@.len(),
            gitems == items@.map_values(|it: ConfigItem| item_model(it)),
            gitems.len() == items@.len(),
            doc_model(*doc) == JsonDoc::Arr(gitems),
            rules_model_of_items(gitems.take(i as int)) == Some(ms),
            rules_match(rules@, ms),
        decreases items@.len() - i,
    {
        proof {
            assert(gitems[i as int] == item_model(items@[i as int]));
        }
        match rule_from_item(&items[i]) {
            Some(rule) => {
                let ghost m = rule_model_of(gitems[i as int]).unwrap();
                rules.push(rule);
                proof {
                    assert(gitems.take(i + 1).drop_last() =~= gitems.take(i as int));
                    assert(gitems.take(i + 1).last() == gitems[i as int]);
                }
                proof {
                    ms = ms.push(m);
                }
            },
            None => {
                proof {
                    lemma_rule_failure_rejects(gitems, i as int);
                    assert(rules_model_of(doc_model(*doc)) is None);
                }
                return None;
            },
        }
        i = i + 1;
    }
    proof {
        assert(gitems.take(gitems.len() as int) =~= gitems);
    }
    Some(rules)
}

/// One element that names no rule rejects the whole sequence.
proof fn lemma_rule_failure_rejects(items: Seq<JsonItem>, i: int)
    requires
        0 <= i < items.len(),
        rule_model_of(items[i]) is None,
    ensures
        rules_model_of_items(items) is None,
    decreases items.len(),
{
    if i < items.len() - 1 {
        let prev = items.drop_last();
        lemma_rule_failure_rejects(prev, i);
    }
}

/// The rule sequence for the run: the rules the configuration text names
/// when it parses and validates, and the fixed built-in default set when the
/// text is absent (the file could not be read), malformed, or fails the
/// structural check. The load is all-or-nothing: a malformed text never
/// yields a partial rule list, and an absent one yields the same defaults on
/// every call.
pub fn rules_from_content(content: Option<&str>) -> (r: Vec<IdsRule>)
    ensures
        rules_match(r@, loaded_rules_of(content.deep_view())),
        content is None ==> is_default_rules(r@),
{
    match content {
        None => {
            let r = default_rules();
            proof {
                lemma_default_rules_match(r@);
            }
            r
        },
        Some(s) => {
            match parse_config(s) {
                None => {
                    let r = default_rules();
                    proof {
                        lemma_default_rules_match(r@);
                    }
                    r
                },
                Some(doc) => match rules_from_doc(&doc) {
                    Some(rules) => rules,
                    None => {
                        let r = default_rules();
                        proof {
                            lemma_default_rules_match(r@);
                        }
                        r
                    },
                },
            }
        },
    }
}

/// The built-in rule set reads as its models.
proof fn lemma_default_rules_match(rs: Seq<IdsRule>)
    requires
        is_default_rules(rs),
    ensures
        rules_match(rs, default_models()),
{
    assert forall|i: int| 0 <= i < rs.len() implies rule_matches(
        #[trigger] rs[i],
        default_models()[i],
    ) by {
        if i == 0 {
            assert(rs[0].pattern.deep_view() == Some("admin"@));
        } else if i == 1 {
            assert(rs[1].pattern.deep_view() == Some("UNION SELECT"@));
        } else {
            assert(rs[2].pattern.deep_view() == Some("/bin/sh"@));
        }
    }
}

/// Loads the rule set from configuration text and builds the inspection
/// engine over it: the engine holds exactly the rules the text loads as
/// (parsed, or the fixed defaults on any configuration error), and building
/// succeeds exactly when the automaton builder accepts those rules'
/// patterns.
pub fn load_rules(content: Option<&str>) -> (r: Option<IdsEngine>)
    ensures
        r is Some <==> ac_build_ok(patterns_of_models(loaded_rules_of(content.deep_view()))),
        r is Some ==> r.unwrap().wf(),
        r is Some ==> rules_match(
            r.unwrap().spec_rules(),
            loaded_rules_of(content.deep_view()),
        ),
        r is Some && content is None ==> is_default_rules(r.unwrap().spec_rules()),
{
    let rules = rules_from_content(content);
    proof {
        lemma_patterns_match(rules@, loaded_rules_of(content.deep_view()));
    }
    IdsEngine::new(rules)
}

/// Law: an engine loaded from a configuration that names no rules (for
/// example an empty rule array) compiles zero patterns and never alerts,
/// whatever the frame.
pub proof fn lemma_empty_load_never_alerts(
    e: IdsEngine,
    f: FrameView,
    r: Option<Alert>,
    content: Option<Seq<char>>,
)
    requires
        e.wf(),
        inspect_post(e, f, r),
        rules_match(e.spec_rules(), loaded_rules_of(content)),
        loaded_rules_of(content).len() == 0,
    ensures
        r is None,
{
    assert(e.spec_rules().len() == 0);
    assert(patterns_of(e.spec_rules()).len() == 0);
    lemma_no_patterns_no_alert(e, f, r);
}

} // verus!
