//! Routing templates: the proxy groups and rules of a Clash or sing-box
//! configuration, in a kernel-neutral form.
use vstd::prelude::*;
use crate::json::{json_views, lemma_json_views, parse_json, spec_json_parse, view_get, view_is_object, JsonValue, JsonView, NumberView};
use crate::singbox::jopt;
use crate::text::{
    chars_eq_str, chars_of, decimal, decimal_exec, parse_unsigned, parse_unsigned_exec, slice_range, string_from_str,
    string_of, trim, trim_chars,
};
use crate::uri::{concat, opt_str_view, strings_view};
use crate::yaml::{
    lemma_yaml_views, parse_yaml, spec_yaml_parse, y_as_bool, y_as_i64, y_as_list, y_as_map, y_as_str, yaml_entry_views,
    yaml_map_get, yaml_map_get_any, yaml_views, ymap_get, ymap_get_any, YamlValue, YamlView,
};

verus! {

/// The settings key under which a source keeps its routing template.
pub open spec fn spec_template_key(source_instance_id: Seq<char>) -> Seq<char> {
    "source."@ + source_instance_id + ".clash_routing_template"@
}

pub fn source_routing_template_key(source_instance_id: &str) -> (r: String)
    ensures
        r@ == spec_template_key(source_instance_id@),
{
    let head = concat("source.", source_instance_id);
    concat(head.as_str(), ".clash_routing_template")
}

/// A proxy group of a routing template.
#[derive(Debug)]
pub struct RoutingTemplateGroupIr {
    pub name: String,
    pub group_type: String,
    pub proxies: Vec<String>,
    pub url: Option<String>,
    pub interval: Option<u32>,
    pub tolerance: Option<u16>,
    pub include_all: bool,
    pub use_provider: bool,
    pub filter: Option<String>,
    pub exclude_filter: Option<String>,
}

pub struct GroupView {
    pub name: Seq<char>,
    pub group_type: Seq<char>,
    pub proxies: Seq<Seq<char>>,
    pub url: Option<Seq<char>>,
    pub interval: Option<u32>,
    pub tolerance: Option<u16>,
    pub include_all: bool,
    pub use_provider: bool,
    pub filter: Option<Seq<char>>,
    pub exclude_filter: Option<Seq<char>>,
}

impl View for RoutingTemplateGroupIr {
    type V = GroupView;

    open spec fn view(&self) -> GroupView {
        GroupView {
            name: self.name@,
            group_type: self.group_type@,
            proxies: strings_view(self.proxies@),
            url: opt_str_view(self.url),
            interval: self.interval,
            tolerance: self.tolerance,
            include_all: self.include_all,
            use_provider: self.use_provider,
            filter: opt_str_view(self.filter),
            exclude_filter: opt_str_view(self.exclude_filter),
        }
    }
}

/// The kernel a template was read from.
#[derive(Debug, Clone, Copy, PartialEq, Eq, Structural)]
pub enum RoutingTemplateSourceKernel {
    Clash,
    SingBox,
}

/// Proxy groups and rules, in the order of the source configuration.
#[derive(Debug)]
pub struct RoutingTemplateIr {
    pub groups: Vec<RoutingTemplateGroupIr>,
    pub rules: Vec<String>,
    pub source_kernel: RoutingTemplateSourceKernel,
}

pub struct IrView {
    pub groups: Seq<GroupView>,
    pub rules: Seq<Seq<char>>,
    pub source_kernel: RoutingTemplateSourceKernel,
}

pub open spec fn groups_view(g: Seq<RoutingTemplateGroupIr>) -> Seq<GroupView> {
    g.map_values(|x: RoutingTemplateGroupIr| x@)
}

impl View for RoutingTemplateIr {
    type V = IrView;

    open spec fn view(&self) -> IrView {
        IrView { groups: groups_view(self.groups@), rules: strings_view(self.rules@), source_kernel: self.source_kernel }
    }
}

// ---------------------------------------------------------------------------
// Clash (YAML)
// ---------------------------------------------------------------------------

/// A member read as a trimmed non-empty string.
pub open spec fn y_text(v: Option<YamlView>) -> Option<Seq<char>> {
    match v {
        Some(x) => match y_as_str(x) {
            Some(s) => if trim(s).len() > 0 {
                Some(trim(s))
            } else {
                None
            },
            None => None,
        },
        None => None,
    }
}

/// The trimmed non-empty strings of a list.
pub open spec fn y_texts(items: Seq<YamlView>) -> Seq<Seq<char>>
    decreases items.len(),
{
    if items.len() == 0 {
        Seq::empty()
    } else {
        let rest = y_texts(items.drop_last());
        match y_text(Some(items.last())) {
            Some(t) => rest.push(t),
            None => rest,
        }
    }
}

/// A member read as a list of trimmed non-empty strings; empty when it is no list.
pub open spec fn y_text_list(v: Option<YamlView>) -> Seq<Seq<char>> {
    match v {
        Some(x) => match y_as_list(x) {
            Some(items) => y_texts(items),
            None => Seq::empty(),
        },
        None => Seq::empty(),
    }
}

pub open spec fn include_all_keys() -> Seq<Seq<char>> {
    seq![
        "include-all"@,
        "include_all"@,
        "include-all-proxies"@,
        "include_all_proxies"@,
        "include-all-providers"@,
        "include_all_providers"@,
    ]
}

pub open spec fn exclude_filter_keys() -> Seq<Seq<char>> {
    seq!["exclude-filter"@, "exclude_filter"@]
}

/// An integer member that fits the range `0..=max`.
pub open spec fn y_int_in(v: Option<YamlView>, max: int) -> Option<int> {
    match v {
        Some(x) => match y_as_i64(x) {
            Some(i) => if 0 <= i <= max {
                Some(i as int)
            } else {
                None
            },
            None => None,
        },
        None => None,
    }
}

/// A Clash proxy group: a mapping with a name and a type.
pub open spec fn clash_group(g: YamlView) -> Option<GroupView> {
    match y_as_map(g) {
        None => None,
        Some(m) => match (y_text(ymap_get(m, "name"@)), y_text(ymap_get(m, "type"@))) {
            (Some(name), Some(group_type)) => Some(
                GroupView {
                    name,
                    group_type,
                    proxies: y_text_list(ymap_get(m, "proxies"@)),
                    url: y_text(ymap_get(m, "url"@)),
                    interval: match y_int_in(ymap_get(m, "interval"@), u32::MAX as int) {
                        Some(i) => Some(i as u32),
                        None => None,
                    },
                    tolerance: match y_int_in(ymap_get(m, "tolerance"@), u16::MAX as int) {
                        Some(i) => Some(i as u16),
                        None => None,
                    },
                    include_all: match ymap_get_any(m, include_all_keys()) {
                        Some(v) => match y_as_bool(v) {
                            Some(b) => b,
                            None => false,
                        },
                        None => false,
                    },
                    use_provider: match ymap_get(m, "use"@) {
                        Some(v) => match y_as_list(v) {
                            Some(items) => items.len() > 0,
                            None => false,
                        },
                        None => false,
                    },
                    filter: y_text(ymap_get(m, "filter"@)),
                    exclude_filter: y_text(ymap_get_any(m, exclude_filter_keys())),
                },
            ),
            _ => None,
        },
    }
}

/// A Clash group's `exclude_filter` is the trimmed text of its
/// `exclude-filter` member, else (when there is no such member) of its
/// `exclude_filter` member; a blank text gives none, and so does a group with
/// neither member.
pub proof fn lemma_clash_exclude_filter(g: YamlView, s: Seq<char>)
    requires
        clash_group(g) is Some,
    ensures
        ({
            let m = y_as_map(g)->0;
            let f = clash_group(g)->0.exclude_filter;
            &&& (ymap_get(m, "exclude-filter"@) matches Some(v) && y_as_str(v) == Some(s) && trim(s).len() > 0)
                ==> f == Some(trim(s))
            &&& (ymap_get(m, "exclude-filter"@) is None && (ymap_get(m, "exclude_filter"@) matches Some(v)
                && y_as_str(v) == Some(s) && trim(s).len() > 0)) ==> f == Some(trim(s))
            &&& (ymap_get(m, "exclude-filter"@) is None && ymap_get(m, "exclude_filter"@) is None) ==> f is None
            &&& (ymap_get(m, "exclude-filter"@) matches Some(v) && y_as_str(v) == Some(s) && trim(s).len() == 0)
                ==> f is None
        }),
{
    let m = y_as_map(g)->0;
    let keys = exclude_filter_keys();
    assert(keys[0] == "exclude-filter"@);
    assert(keys.drop_first()[0] == "exclude_filter"@);
    assert(keys.drop_first().drop_first().len() == 0);
    assert(clash_group(g)->0.exclude_filter == y_text(ymap_get_any(m, keys)));
    reveal_with_fuel(ymap_get_any, 3);
    assert(ymap_get_any(m, keys) == match ymap_get(m, "exclude-filter"@) {
        Some(v) => Some(v),
        None => match ymap_get(m, "exclude_filter"@) {
            Some(v) => Some(v),
            None => None,
        },
    });
}

/// The well-formed groups of a list, in order.
pub open spec fn clash_groups(items: Seq<YamlView>) -> Seq<GroupView>
    decreases items.len(),
{
    if items.len() == 0 {
        Seq::empty()
    } else {
        let rest = clash_groups(items.drop_last());
        match clash_group(items.last()) {
            Some(g) => rest.push(g),
            None => rest,
        }
    }
}

/// The template of a Clash document: its `proxy-groups` (at least one well-formed)
/// and its `rules`.
pub open spec fn spec_clash_ir(payload: Seq<char>) -> Option<IrView> {
    match spec_yaml_parse(payload) {
        None => None,
        Some(root) => match y_as_map(root) {
            None => None,
            Some(m) => match ymap_get(m, "proxy-groups"@) {
                None => None,
                Some(gv) => match y_as_list(gv) {
                    None => None,
                    Some(items) => if clash_groups(items).len() == 0 {
                        None
                    } else {
                        Some(
                            IrView {
                                groups: clash_groups(items),
                                rules: y_text_list(ymap_get(m, "rules"@)),
                                source_kernel: RoutingTemplateSourceKernel::Clash,
                            },
                        )
                    },
                },
            },
        },
    }
}

fn y_text_exec(v: Option<&YamlValue>) -> (r: Option<String>)
    ensures
        opt_str_view(r) == y_text(
            match v {
                Some(x) => Some(x@),
                None => None,
            },
        ),
{
    match v {
        Some(x) => match x.as_str() {
            Some(s) => {
                let c = chars_of(s.as_str());
                let t = trim_chars(c.as_slice());
                if t.len() > 0 {
                    Some(string_of(t.as_slice()))
                } else {
                    None
                }
            },
            None => None,
        },
        None => None,
    }
}

fn y_texts_exec(items: &Vec<YamlValue>) -> (r: Vec<String>)
    ensures
        strings_view(r@) == y_texts(yaml_views(items@)),
{
    proof {
        lemma_yaml_views(items@);
    }
    let ghost iv = yaml_views(items@);
    let mut out: Vec<String> = Vec::new();
    let mut i: usize = 0;
    while i < items.len()
        invariant
            i <= items@.len(),
            iv == yaml_views(items@),
            iv.len() == items@.len(),
            forall|k: int| 0 <= k < items@.len() ==> #[trigger] iv[k] == items@[k]@,
            strings_view(out@) == y_texts(iv.take(i as int)),
        decreases items.len() - i,
    {
        proof {
            assert(iv.take(i + 1).drop_last() =~= iv.take(i as int));
        }
        match y_text_exec(Some(&items[i])) {
            Some(t) => {
                let ghost before = out@;
                out.push(t);
                assert(strings_view(out@) =~= strings_view(before).push(out@.last()@));
            },
            None => {},
        }
        i = i + 1;
    }
    assert(iv.take(iv.len() as int) =~= iv);
    out
}

fn y_text_list_exec(v: Option<&YamlValue>) -> (r: Vec<String>)
    ensures
        strings_view(r@) == y_text_list(
            match v {
                Some(x) => Some(x@),
                None => None,
            },
        ),
{
    match v {
        Some(x) => match x.as_sequence() {
            Some(items) => y_texts_exec(items),
            None => {
                let out: Vec<String> = Vec::new();
                assert(strings_view(out@) =~= Seq::<Seq<char>>::empty());
                out
            },
        },
        None => {
            let out: Vec<String> = Vec::new();
            assert(strings_view(out@) =~= Seq::<Seq<char>>::empty());
            out
        },
    }
}

fn clash_group_exec(g: &YamlValue) -> (r: Option<RoutingTemplateGroupIr>)
    ensures
        r matches Some(x) ==> clash_group(g@) == Some(x@),
        r is None ==> clash_group(g@) is None,
{
    let m = match g.as_mapping() {
        Some(m) => m,
        None => return None,
    };
    let name = match y_text_exec(yaml_map_get(m, "name")) {
        Some(n) => n,
        None => return None,
    };
    let group_type = match y_text_exec(yaml_map_get(m, "type")) {
        Some(n) => n,
        None => return None,
    };
    let proxies = y_text_list_exec(yaml_map_get(m, "proxies"));
    let url = y_text_exec(yaml_map_get(m, "url"));
    let interval: Option<u32> = match yaml_map_get(m, "interval") {
        Some(v) => match v.as_i64() {
            Some(i) => if 0 <= i && i <= 4294967295i64 {
                Some(i as u32)
            } else {
                None
            },
            None => None,
        },
        None => None,
    };
    let tolerance: Option<u16> = match yaml_map_get(m, "tolerance") {
        Some(v) => match v.as_i64() {
            Some(i) => if 0 <= i && i <= 65535i64 {
                Some(i as u16)
            } else {
                None
            },
            None => None,
        },
        None => None,
    };
    let k_include: &[&str] = &[
        "include-all",
        "include_all",
        "include-all-proxies",
        "include_all_proxies",
        "include-all-providers",
        "include_all_providers",
    ];
    assert(k_include@.map_values(|k: &str| k@) =~= include_all_keys());
    let include_all = match yaml_map_get_any(m, k_include) {
        Some(v) => match v.as_bool() {
            Some(b) => b,
            None => false,
        },
        None => false,
    };
    let use_provider = match yaml_map_get(m, "use") {
        Some(v) => match v.as_sequence() {
            Some(items) => {
                proof {
                    lemma_yaml_views(items@);
                }
                items.len() > 0
            },
            None => false,
        },
        None => false,
    };
    let filter = y_text_exec(yaml_map_get(m, "filter"));
    let k_exclude: &[&str] = &["exclude-filter", "exclude_filter"];
    assert(k_exclude@.map_values(|k: &str| k@) =~= exclude_filter_keys());
    let exclude_filter = y_text_exec(yaml_map_get_any(m, k_exclude));
    Some(
        RoutingTemplateGroupIr {
            name,
            group_type,
            proxies,
            url,
            interval,
            tolerance,
            include_all,
            use_provider,
            filter,
            exclude_filter,
        },
    )
}

/// Reads the routing template of a Clash document.
pub fn parse_clash_routing_template_ir(payload: &str) -> (r: Option<RoutingTemplateIr>)
    ensures
        r matches Some(ir) ==> spec_clash_ir(payload@) == Some(ir@),
        r is None ==> spec_clash_ir(payload@) is None,
{
    let root = match parse_yaml(payload) {
        Some(v) => v,
        None => return None,
    };
    let m = match root.as_mapping() {
        Some(m) => m,
        None => return None,
    };
    let groups_value = match yaml_map_get(m, "proxy-groups") {
        Some(v) => v,
        None => return None,
    };
    let items = match groups_value.as_sequence() {
        Some(items) => items,
        None => return None,
    };
    proof {
        lemma_yaml_views(items@);
    }
    let ghost iv = yaml_views(items@);
    let mut groups: Vec<RoutingTemplateGroupIr> = Vec::new();
    let mut i: usize = 0;
    while i < items.len()
        invariant
            i <= items@.len(),
            iv == yaml_views(items@),
            iv.len() == items@.len(),
            forall|k: int| 0 <= k < items@.len() ==> #[trigger] iv[k] == items@[k]@,
            groups_view(groups@) == clash_groups(iv.take(i as int)),
        decreases items.len() - i,
    {
        proof {
            assert(iv.take(i + 1).drop_last() =~= iv.take(i as int));
        }
        match clash_group_exec(&items[i]) {
            Some(g) => {
                let ghost before = groups@;
                groups.push(g);
                assert(groups_view(groups@) =~= groups_view(before).push(groups@.last()@));
            },
            None => {},
        }
        i = i + 1;
    }
    assert(iv.take(iv.len() as int) =~= iv);
    if groups.len() == 0 {
        return None;
    }
    let rules = y_text_list_exec(yaml_map_get(m, "rules"));
    Some(RoutingTemplateIr { groups, rules, source_kernel: RoutingTemplateSourceKernel::Clash })
}

// ---------------------------------------------------------------------------
// sing-box (JSON)
// ---------------------------------------------------------------------------

/// A member read as a trimmed non-empty string (`Value::as_str`).
pub open spec fn j_text(v: Option<JsonView>) -> Option<Seq<char>> {
    match v {
        Some(JsonView::Str(s)) => if trim(s).len() > 0 {
            Some(trim(s))
        } else {
            None
        },
        _ => None,
    }
}

/// The trimmed non-empty strings of a list.
pub open spec fn j_texts(items: Seq<JsonView>) -> Seq<Seq<char>>
    decreases items.len(),
{
    if items.len() == 0 {
        Seq::empty()
    } else {
        let rest = j_texts(items.drop_last());
        match j_text(Some(items.last())) {
            Some(t) => rest.push(t),
            None => rest,
        }
    }
}

/// Whether reading an interval would slice a text inside its last character:
/// a text that is not a number and ends in a character outside ASCII.
pub open spec fn interval_panics(v: Option<JsonView>) -> bool {
    match v {
        Some(JsonView::Str(s)) => {
            let t = trim(s);
            t.len() > 0 && parse_unsigned(t, u32::MAX as int) is None && (t.last() as u32) >= 128
        },
        _ => false,
    }
}

/// A duration in seconds: a number, or a text holding a number optionally
/// followed by `s`, `m` or `h` (any case); `None` when it does not fit a `u32`.
pub open spec fn spec_interval(v: Option<JsonView>) -> Option<u32> {
    match v {
        None => None,
        Some(JsonView::Number(NumberView::PosInt(u))) => if u <= u32::MAX {
            Some(u as u32)
        } else {
            None
        },
        Some(JsonView::Str(s)) => {
            let t = trim(s);
            if t.len() == 0 {
                None
            } else {
                match parse_unsigned(t, u32::MAX as int) {
                    Some(n) => Some(n as u32),
                    None => {
                        let unit = t.last();
                        match parse_unsigned(trim(t.drop_last()), u32::MAX as int) {
                            None => None,
                            Some(n) => if unit == 's' || unit == 'S' {
                                Some(n as u32)
                            } else if unit == 'm' || unit == 'M' {
                                if n * 60 <= u32::MAX {
                                    Some((n * 60) as u32)
                                } else {
                                    None
                                }
                            } else if unit == 'h' || unit == 'H' {
                                if n * 3600 <= u32::MAX {
                                    Some((n * 3600) as u32)
                                } else {
                                    None
                                }
                            } else {
                                None
                            },
                        }
                    },
                }
            }
        },
        _ => None,
    }
}

/// Reads an interval in seconds (see `spec_interval`).
pub fn parse_interval_seconds(value: Option<&JsonValue>) -> (r: Option<u32>)
    requires
        !interval_panics(jopt(value)),
    ensures
        r == spec_interval(jopt(value)),
{
    let v = match value {
        Some(v) => v,
        None => return None,
    };
    if let Some(raw) = v.as_u64() {
        if raw <= 4294967295u64 {
            return Some(raw as u32);
        }
        return None;
    }
    let s = match v.as_str() {
        Some(s) => s,
        None => return None,
    };
    let c = chars_of(s.as_str());
    let t = trim_chars(c.as_slice());
    if t.len() == 0 {
        return None;
    }
    if let Some(n) = parse_unsigned_exec(t.as_slice(), 4294967295u64) {
        return Some(n as u32);
    }
    let last = t.len() - 1;
    let unit = t[last];
    let head = slice_range(t.as_slice(), 0, last);
    assert(head@ =~= t@.drop_last());
    let number = trim_chars(head.as_slice());
    let n = match parse_unsigned_exec(number.as_slice(), 4294967295u64) {
        Some(n) => n,
        None => return None,
    };
    if unit == 's' || unit == 'S' {
        Some(n as u32)
    } else if unit == 'm' || unit == 'M' {
        if n <= 4294967295u64 / 60 {
            Some((n * 60) as u32)
        } else {
            None
        }
    } else if unit == 'h' || unit == 'H' {
        if n <= 4294967295u64 / 3600 {
            Some((n * 3600) as u32)
        } else {
            None
        }
    } else {
        None
    }
}

/// A sing-box group outbound (`selector` or `urltest`) with a tag; its type is
/// given the Clash name (`select`, `url-test`).
pub open spec fn sb_group(o: JsonView) -> Option<GroupView> {
    if !view_is_object(o) {
        None
    } else {
        match view_get(o, "type"@) {
            Some(JsonView::Str(s)) => {
                let t = trim(s);
                if t != "selector"@ && t != "urltest"@ {
                    None
                } else {
                    match j_text(view_get(o, "tag"@)) {
                        None => None,
                        Some(name) => Some(
                            GroupView {
                                name,
                                group_type: if t == "selector"@ {
                                    "select"@
                                } else {
                                    "url-test"@
                                },
                                proxies: match view_get(o, "outbounds"@) {
                                    Some(JsonView::Array(items)) => j_texts(items),
                                    _ => Seq::empty(),
                                },
                                url: j_text(view_get(o, "url"@)),
                                interval: spec_interval(view_get(o, "interval"@)),
                                tolerance: match view_get(o, "tolerance"@) {
                                    Some(JsonView::Number(NumberView::PosInt(u))) => if u <= u16::MAX {
                                        Some(u as u16)
                                    } else {
                                        None
                                    },
                                    _ => None,
                                },
                                include_all: false,
                                use_provider: false,
                                filter: None,
                                exclude_filter: None,
                            },
                        ),
                    }
                }
            },
            _ => None,
        }
    }
}

/// Reading the outbound as a group would slice a text inside a character.
pub open spec fn sb_group_panics(o: JsonView) -> bool {
    &&& view_is_object(o)
    &&& view_get(o, "type"@) matches Some(JsonView::Str(s)) && (trim(s) == "selector"@ || trim(s) == "urltest"@)
    &&& j_text(view_get(o, "tag"@)) is Some
    &&& interval_panics(view_get(o, "interval"@))
}

fn j_text_exec(v: Option<&JsonValue>) -> (r: Option<String>)
    ensures
        opt_str_view(r) == j_text(jopt(v)),
{
    match v {
        Some(JsonValue::String(s)) => {
            let c = chars_of(s.as_str());
            let t = trim_chars(c.as_slice());
            if t.len() > 0 {
                Some(string_of(t.as_slice()))
            } else {
                None
            }
        },
        _ => None,
    }
}

fn j_texts_exec(items: &Vec<JsonValue>) -> (r: Vec<String>)
    ensures
        strings_view(r@) == j_texts(json_views(items@)),
{
    proof {
        lemma_json_views(items@);
    }
    let ghost iv = json_views(items@);
    let mut out: Vec<String> = Vec::new();
    let mut i: usize = 0;
    while i < items.len()
        invariant
            i <= items@.len(),
            iv == json_views(items@),
            iv.len() == items@.len(),
            forall|k: int| 0 <= k < items@.len() ==> #[trigger] iv[k] == items@[k]@,
            strings_view(out@) == j_texts(iv.take(i as int)),
        decreases items.len() - i,
    {
        proof {
            assert(iv.take(i + 1).drop_last() =~= iv.take(i as int));
        }
        match j_text_exec(Some(&items[i])) {
            Some(t) => {
                let ghost before = out@;
                out.push(t);
                assert(strings_view(out@) =~= strings_view(before).push(out@.last()@));
            },
            None => {},
        }
        i = i + 1;
    }
    assert(iv.take(iv.len() as int) =~= iv);
    out
}

/// Reads a sing-box group outbound.
pub fn parse_singbox_group(outbound: &JsonValue) -> (r: Option<RoutingTemplateGroupIr>)
    requires
        !sb_group_panics(outbound@),
    ensures
        r matches Some(g) ==> sb_group(outbound@) == Some(g@),
        r is None ==> sb_group(outbound@) is None,
{
    if !outbound.is_object() {
        return None;
    }
    let t = match outbound.get("type") {
        Some(JsonValue::String(s)) => {
            let c = chars_of(s.as_str());
            trim_chars(c.as_slice())
        },
        _ => return None,
    };
    let is_selector = chars_eq_str(t.as_slice(), "selector");
    let is_urltest = chars_eq_str(t.as_slice(), "urltest");
    if !is_selector && !is_urltest {
        return None;
    }
    let name = match j_text_exec(outbound.get("tag")) {
        Some(n) => n,
        None => return None,
    };
    let group_type = string_from_str(if is_selector { "select" } else { "url-test" });
    let proxies = match outbound.get("outbounds") {
        Some(JsonValue::Array(items)) => j_texts_exec(items),
        _ => {
            let out: Vec<String> = Vec::new();
            assert(strings_view(out@) =~= Seq::<Seq<char>>::empty());
            out
        },
    };
    let url = j_text_exec(outbound.get("url"));
    let interval = parse_interval_seconds(outbound.get("interval"));
    let tolerance: Option<u16> = match outbound.get("tolerance") {
        Some(v) => match v.as_u64() {
            Some(u) => if u <= 65535u64 {
                Some(u as u16)
            } else {
                None
            },
            None => None,
        },
        None => None,
    };
    Some(
        RoutingTemplateGroupIr {
            name,
            group_type,
            proxies,
            url,
            interval,
            tolerance,
            include_all: false,
            use_provider: false,
            filter: None,
            exclude_filter: None,
        },
    )
}

// ---------------------------------------------------------------------------
// sing-box rules
// ---------------------------------------------------------------------------

/// `output` with `value` appended unless it is already there.
pub open spec fn push_unique(output: Seq<Seq<char>>, value: Seq<char>) -> Seq<Seq<char>> {
    if output.contains(value) {
        output
    } else {
        output.push(value)
    }
}

/// Every value appended in order, skipping those already present.
pub open spec fn push_all_unique(output: Seq<Seq<char>>, values: Seq<Seq<char>>) -> Seq<Seq<char>>
    decreases values.len(),
{
    if values.len() == 0 {
        output
    } else {
        push_unique(push_all_unique(output, values.drop_last()), values.last())
    }
}

/// No rule occurs twice.
pub open spec fn no_duplicates(s: Seq<Seq<char>>) -> bool {
    forall|i: int, j: int| 0 <= i < j < s.len() ==> s[i] != s[j]
}

/// Appends a rule unless it is already present.
pub fn push_unique_rule(output: &mut Vec<String>, value: String)
    ensures
        strings_view(final(output)@) == push_unique(strings_view(old(output)@), value@),
{
    let ghost sv = strings_view(output@);
    let mut i: usize = 0;
    while i < output.len()
        invariant
            i <= output@.len(),
            sv == strings_view(output@),
            forall|j: int| 0 <= j < i ==> sv[j] != value@,
        decreases output.len() - i,
    {
        assert(sv[i as int] == output@[i as int]@);
        if output[i] == value {
            assert(sv.contains(value@));
            return;
        }
        i = i + 1;
    }
    assert(!sv.contains(value@));
    let ghost before = output@;
    output.push(value);
    assert(strings_view(output@) =~= strings_view(before).push(value@));
}

/// The values a rule field lists: one trimmed string, or the trimmed strings of a list.
pub open spec fn spec_string_values(v: Option<JsonView>) -> Seq<Seq<char>> {
    match v {
        None => Seq::empty(),
        Some(x) => match j_text(Some(x)) {
            Some(t) => seq![t],
            None => match x {
                JsonView::Array(items) => j_texts(items),
                _ => Seq::empty(),
            },
        },
    }
}

pub fn json_string_values(value: Option<&JsonValue>) -> (r: Vec<String>)
    ensures
        strings_view(r@) == spec_string_values(jopt(value)),
{
    let v = match value {
        Some(v) => v,
        None => {
            let out: Vec<String> = Vec::new();
            assert(strings_view(out@) =~= Seq::<Seq<char>>::empty());
            return out;
        },
    };
    match j_text_exec(Some(v)) {
        Some(t) => {
            let mut out: Vec<String> = Vec::new();
            out.push(t);
            assert(strings_view(out@) =~= seq![out@[0]@]);
            out
        },
        None => match v {
            JsonValue::Array(items) => j_texts_exec(items),
            _ => {
                let out: Vec<String> = Vec::new();
                assert(strings_view(out@) =~= Seq::<Seq<char>>::empty());
                out
            },
        },
    }
}

/// `{prefix},{value},{target}` for each value.
pub open spec fn prefixed_lines(prefix: Seq<char>, values: Seq<Seq<char>>, target: Seq<char>) -> Seq<Seq<char>> {
    values.map_values(|v: Seq<char>| prefix + ","@ + v + ","@ + target)
}

/// Appends `{prefix},{value},{target}` for each value of the field `key`.
pub fn push_prefixed_rules(output: &mut Vec<String>, rule: &JsonValue, key: &str, prefix: &str, target: &str)
    ensures
        strings_view(final(output)@) == push_all_unique(
            strings_view(old(output)@),
            prefixed_lines(prefix@, spec_string_values(view_get(rule@, key@)), target@),
        ),
{
    let values = json_string_values(rule.get(key));
    let ghost lines = prefixed_lines(prefix@, strings_view(values@), target@);
    let ghost start = strings_view(output@);
    let mut i: usize = 0;
    while i < values.len()
        invariant
            i <= values@.len(),
            lines == prefixed_lines(prefix@, strings_view(values@), target@),
            strings_view(output@) == push_all_unique(start, lines.take(i as int)),
        decreases values.len() - i,
    {
        proof {
            assert(lines.take(i + 1).drop_last() =~= lines.take(i as int));
        }
        let a = concat(prefix, ",");
        let b = concat(a.as_str(), values[i].as_str());
        let c = concat(b.as_str(), ",");
        let line = concat(c.as_str(), target);
        assert(line@ == lines.take(i + 1).last());
        push_unique_rule(output, line);
        i = i + 1;
    }
    assert(lines.take(lines.len() as int) =~= lines);
}

/// A `port` rule value: a number or a trimmed non-empty string.
pub open spec fn spec_port_rule(v: Option<JsonView>) -> Option<Seq<char>> {
    match v {
        Some(JsonView::Number(NumberView::PosInt(u))) => Some(decimal(u as nat)),
        Some(x) => j_text(Some(x)),
        None => None,
    }
}

pub fn parse_port_rule(value: Option<&JsonValue>) -> (r: Option<String>)
    ensures
        opt_str_view(r) == spec_port_rule(jopt(value)),
{
    let v = match value {
        Some(v) => v,
        None => return None,
    };
    if let Some(raw) = v.as_u64() {
        let d = decimal_exec(raw);
        return Some(string_of(d.as_slice()));
    }
    j_text_exec(Some(v))
}

/// The outbound a rule routes to: `outbound`, else the first of `outbounds`.
pub open spec fn spec_rule_target(rule: JsonView) -> Option<Seq<char>> {
    match j_text(view_get(rule, "outbound"@)) {
        Some(t) => Some(t),
        None => match view_get(rule, "outbounds"@) {
            Some(JsonView::Array(items)) => if items.len() > 0 {
                j_text(Some(items[0]))
            } else {
                None
            },
            _ => None,
        },
    }
}

pub fn resolve_singbox_rule_target(rule: &JsonValue) -> (r: Option<String>)
    ensures
        opt_str_view(r) == spec_rule_target(rule@),
{
    match j_text_exec(rule.get("outbound")) {
        Some(t) => Some(t),
        None => match rule.get("outbounds") {
            Some(JsonValue::Array(items)) => {
                proof {
                    lemma_json_views(items@);
                }
                if items.len() > 0 {
                    j_text_exec(Some(&items[0]))
                } else {
                    None
                }
            },
            _ => None,
        },
    }
}

/// The field names and rule prefixes, in the order they are emitted.
pub open spec fn rule_fields() -> Seq<(Seq<char>, Seq<char>)> {
    seq![
        ("domain"@, "DOMAIN"@),
        ("domain_suffix"@, "DOMAIN-SUFFIX"@),
        ("domain_keyword"@, "DOMAIN-KEYWORD"@),
        ("ip_cidr"@, "IP-CIDR"@),
        ("geoip"@, "GEOIP"@),
        ("geosite"@, "GEOSITE"@),
        ("network"@, "NETWORK"@),
    ]
}

/// The rules one sing-box rule object adds.
pub open spec fn rule_step(output: Seq<Seq<char>>, rule: JsonView, target: Seq<char>) -> Seq<Seq<char>> {
    let f = rule_fields();
    let o = push_all_unique(output, prefixed_lines(f[0].1, spec_string_values(view_get(rule, f[0].0)), target));
    let o = push_all_unique(o, prefixed_lines(f[1].1, spec_string_values(view_get(rule, f[1].0)), target));
    let o = push_all_unique(o, prefixed_lines(f[2].1, spec_string_values(view_get(rule, f[2].0)), target));
    let o = push_all_unique(o, prefixed_lines(f[3].1, spec_string_values(view_get(rule, f[3].0)), target));
    let o = push_all_unique(o, prefixed_lines(f[4].1, spec_string_values(view_get(rule, f[4].0)), target));
    let o = push_all_unique(o, prefixed_lines(f[5].1, spec_string_values(view_get(rule, f[5].0)), target));
    let o = push_all_unique(o, prefixed_lines(f[6].1, spec_string_values(view_get(rule, f[6].0)), target));
    match spec_port_rule(view_get(rule, "port"@)) {
        Some(p) => push_unique(o, "DST-PORT,"@ + p + ","@ + target),
        None => o,
    }
}

/// The rules of the rule objects, in order.
pub open spec fn rules_fold(items: Seq<JsonView>) -> Seq<Seq<char>>
    decreases items.len(),
{
    if items.len() == 0 {
        Seq::empty()
    } else {
        let acc = rules_fold(items.drop_last());
        let rule = items.last();
        if view_is_object(rule) {
            match spec_rule_target(rule) {
                Some(t) => rule_step(acc, rule, t),
                None => acc,
            }
        } else {
            acc
        }
    }
}

/// The Clash rules of a sing-box `route`: those of its `rules`, then
/// `MATCH,{final}`; none when `route` is not an object.
pub open spec fn spec_singbox_rules(route: Option<JsonView>) -> Seq<Seq<char>> {
    match route {
        Some(r) => if view_is_object(r) {
            let acc = match view_get(r, "rules"@) {
                Some(JsonView::Array(items)) => rules_fold(items),
                _ => Seq::empty(),
            };
            match j_text(view_get(r, "final"@)) {
                Some(t) => push_unique(acc, "MATCH,"@ + t),
                None => acc,
            }
        } else {
            Seq::empty()
        },
        None => Seq::empty(),
    }
}

fn push_rule_fields(output: &mut Vec<String>, rule: &JsonValue, target: &str)
    ensures
        strings_view(final(output)@) == rule_step(strings_view(old(output)@), rule@, target@),
{
    push_prefixed_rules(output, rule, "domain", "DOMAIN", target);
    push_prefixed_rules(output, rule, "domain_suffix", "DOMAIN-SUFFIX", target);
    push_prefixed_rules(output, rule, "domain_keyword", "DOMAIN-KEYWORD", target);
    push_prefixed_rules(output, rule, "ip_cidr", "IP-CIDR", target);
    push_prefixed_rules(output, rule, "geoip", "GEOIP", target);
    push_prefixed_rules(output, rule, "geosite", "GEOSITE", target);
    push_prefixed_rules(output, rule, "network", "NETWORK", target);
    if let Some(port) = parse_port_rule(rule.get("port")) {
        let a = concat("DST-PORT,", port.as_str());
        let b = concat(a.as_str(), ",");
        push_unique_rule(output, concat(b.as_str(), target));
    }
}

/// Converts a sing-box `route` into Clash rules, without duplicates.
pub fn parse_singbox_rules(route: Option<&JsonValue>) -> (r: Vec<String>)
    ensures
        strings_view(r@) == spec_singbox_rules(jopt(route)),
{
    let mut rules: Vec<String> = Vec::new();
    assert(strings_view(rules@) =~= Seq::<Seq<char>>::empty());
    let route_map = match route {
        Some(r) => if r.is_object() {
            r
        } else {
            return rules;
        },
        None => return rules,
    };
    match route_map.get("rules") {
        Some(JsonValue::Array(items)) => {
            proof {
                lemma_json_views(items@);
            }
            let ghost iv = json_views(items@);
            let mut i: usize = 0;
            while i < items.len()
                invariant
                    i <= items@.len(),
                    iv == json_views(items@),
                    iv.len() == items@.len(),
                    forall|k: int| 0 <= k < items@.len() ==> #[trigger] iv[k] == items@[k]@,
                    strings_view(rules@) == rules_fold(iv.take(i as int)),
                decreases items.len() - i,
            {
                proof {
                    assert(iv.take(i + 1).drop_last() =~= iv.take(i as int));
                }
                let item = &items[i];
                if item.is_object() {
                    if let Some(target) = resolve_singbox_rule_target(item) {
                        push_rule_fields(&mut rules, item, target.as_str());
                    }
                }
                i = i + 1;
            }
            assert(iv.take(iv.len() as int) =~= iv);
        },
        _ => {},
    }
    if let Some(final_target) = j_text_exec(route_map.get("final")) {
        push_unique_rule(&mut rules, concat("MATCH,", final_target.as_str()));
    }
    rules
}

// ---------------------------------------------------------------------------
// Whole templates
// ---------------------------------------------------------------------------

/// The well-formed group outbounds, in order.
pub open spec fn sb_groups(items: Seq<JsonView>) -> Seq<GroupView>
    decreases items.len(),
{
    if items.len() == 0 {
        Seq::empty()
    } else {
        let rest = sb_groups(items.drop_last());
        match sb_group(items.last()) {
            Some(g) => rest.push(g),
            None => rest,
        }
    }
}

/// Some outbound of the document would be read as a group with an unreadable interval.
pub open spec fn singbox_template_panics(root: JsonView) -> bool {
    match view_get(root, "outbounds"@) {
        Some(JsonView::Array(items)) => any_group_panics(items),
        _ => false,
    }
}

pub open spec fn any_group_panics(items: Seq<JsonView>) -> bool {
    exists|i: int| 0 <= i < items.len() && sb_group_panics(#[trigger] items[i])
}

/// The template of a sing-box document: its group outbounds (at least one)
/// and the rules of its route.
pub open spec fn spec_singbox_ir(root: JsonView) -> Option<IrView> {
    match view_get(root, "outbounds"@) {
        Some(JsonView::Array(items)) => if sb_groups(items).len() == 0 {
            None
        } else {
            Some(
                IrView {
                    groups: sb_groups(items),
                    rules: spec_singbox_rules(view_get(root, "route"@)),
                    source_kernel: RoutingTemplateSourceKernel::SingBox,
                },
            )
        },
        _ => None,
    }
}

/// Reads the routing template of a parsed sing-box document.
pub fn parse_singbox_routing_template_ir(root: &JsonValue) -> (r: Option<RoutingTemplateIr>)
    requires
        !singbox_template_panics(root@),
    ensures
        r matches Some(ir) ==> spec_singbox_ir(root@) == Some(ir@),
        r is None ==> spec_singbox_ir(root@) is None,
{
    let outbounds = match root.get("outbounds") {
        Some(JsonValue::Array(items)) => items,
        _ => return None,
    };
    proof {
        lemma_json_views(outbounds@);
    }
    let ghost iv = json_views(outbounds@);
    let mut groups: Vec<RoutingTemplateGroupIr> = Vec::new();
    let mut i: usize = 0;
    while i < outbounds.len()
        invariant
            i <= outbounds@.len(),
            iv == json_views(outbounds@),
            iv.len() == outbounds@.len(),
            forall|k: int| 0 <= k < outbounds@.len() ==> #[trigger] iv[k] == outbounds@[k]@,
            forall|k: int| 0 <= k < iv.len() ==> !sb_group_panics(#[trigger] iv[k]),
            groups_view(groups@) == sb_groups(iv.take(i as int)),
        decreases outbounds.len() - i,
    {
        proof {
            assert(iv.take(i + 1).drop_last() =~= iv.take(i as int));
        }
        assert(!sb_group_panics(iv[i as int]));
        match parse_singbox_group(&outbounds[i]) {
            Some(g) => {
                let ghost before = groups@;
                groups.push(g);
                assert(groups_view(groups@) =~= groups_view(before).push(groups@.last()@));
            },
            None => {},
        }
        i = i + 1;
    }
    assert(iv.take(iv.len() as int) =~= iv);
    if groups.len() == 0 {
        return None;
    }
    let rules = parse_singbox_rules(root.get("route"));
    Some(RoutingTemplateIr { groups, rules, source_kernel: RoutingTemplateSourceKernel::SingBox })
}

/// Whether some outbound would be read as a group with an unreadable interval.
pub fn singbox_template_would_panic(root: &JsonValue) -> (r: bool)
    ensures
        r == singbox_template_panics(root@),
{
    let outbounds = match root.get("outbounds") {
        Some(JsonValue::Array(items)) => items,
        _ => return false,
    };
    proof {
        lemma_json_views(outbounds@);
    }
    let ghost iv = json_views(outbounds@);
    assert(view_get(root@, "outbounds"@) == Some(JsonView::Array(iv)));
    let mut i: usize = 0;
    while i < outbounds.len()
        invariant
            i <= outbounds@.len(),
            view_get(root@, "outbounds"@) == Some(JsonView::Array(iv)),
            iv == json_views(outbounds@),
            iv.len() == outbounds@.len(),
            forall|k: int| 0 <= k < outbounds@.len() ==> #[trigger] iv[k] == outbounds@[k]@,
            forall|k: int| 0 <= k < i ==> !sb_group_panics(#[trigger] iv[k]),
        decreases outbounds.len() - i,
    {
        let o = &outbounds[i];
        if o.is_object() {
            let grouped = match o.get("type") {
                Some(JsonValue::String(s)) => {
                    let c = chars_of(s.as_str());
                    let t = trim_chars(c.as_slice());
                    chars_eq_str(t.as_slice(), "selector") || chars_eq_str(t.as_slice(), "urltest")
                },
                _ => false,
            };
            if grouped && j_text_exec(o.get("tag")).is_some() {
                let bad = match o.get("interval") {
                    Some(JsonValue::String(s)) => {
                        let c = chars_of(s.as_str());
                        let t = trim_chars(c.as_slice());
                        t.len() > 0 && parse_unsigned_exec(t.as_slice(), 4294967295u64).is_none() && (t[t.len() - 1]
                            as u32) >= 128u32
                    },
                    _ => false,
                };
                if bad {
                    assert(sb_group_panics(iv[i as int]));
                    assert(any_group_panics(iv));
                    return true;
                }
            }
        }
        i = i + 1;
    }
    false
}

/// The template of a payload: read as Clash first, then as sing-box. A sing-box
/// document whose group interval cannot be read is refused.
pub open spec fn spec_routing_ir(payload: Seq<char>) -> Option<IrView> {
    match spec_clash_ir(payload) {
        Some(ir) => Some(ir),
        None => match spec_json_parse(payload) {
            Some(root) => if singbox_template_panics(root) {
                None
            } else {
                spec_singbox_ir(root)
            },
            None => None,
        },
    }
}

/// Reads the routing template of a Clash or sing-box payload.
pub fn parse_routing_template_ir(payload: &str) -> (r: Option<RoutingTemplateIr>)
    ensures
        r matches Some(ir) ==> spec_routing_ir(payload@) == Some(ir@),
        r is None ==> spec_routing_ir(payload@) is None,
{
    if let Some(ir) = parse_clash_routing_template_ir(payload) {
        return Some(ir);
    }
    let root = match parse_json(payload) {
        Ok(v) => v,
        Err(_) => return None,
    };
    if singbox_template_would_panic(&root) {
        return None;
    }
    parse_singbox_routing_template_ir(&root)
}

// ---------------------------------------------------------------------------
// Laws
// ---------------------------------------------------------------------------

proof fn lemma_push_unique_distinct(s: Seq<Seq<char>>, v: Seq<char>)
    requires
        no_duplicates(s),
    ensures
        no_duplicates(push_unique(s, v)),
        forall|x: Seq<char>| s.contains(x) ==> push_unique(s, v).contains(x),
        push_unique(s, v).contains(v),
{
    if !s.contains(v) {
        let t = s.push(v);
        assert forall|i: int, j: int| 0 <= i < j < t.len() implies t[i] != t[j] by {
            if j == t.len() - 1 {
                assert(s[i] == t[i]);
            }
        }
        assert forall|x: Seq<char>| s.contains(x) implies t.contains(x) by {
            let k = choose|k: int| 0 <= k < s.len() && s[k] == x;
            assert(t[k] == x);
        }
        assert(t[t.len() - 1] == v);
    }
}

proof fn lemma_push_all_unique_distinct(s: Seq<Seq<char>>, vals: Seq<Seq<char>>)
    requires
        no_duplicates(s),
    ensures
        no_duplicates(push_all_unique(s, vals)),
    decreases vals.len(),
{
    if vals.len() > 0 {
        lemma_push_all_unique_distinct(s, vals.drop_last());
        lemma_push_unique_distinct(push_all_unique(s, vals.drop_last()), vals.last());
    }
}

proof fn lemma_rule_step_distinct(s: Seq<Seq<char>>, rule: JsonView, target: Seq<char>)
    requires
        no_duplicates(s),
    ensures
        no_duplicates(rule_step(s, rule, target)),
{
    let f = rule_fields();
    let o0 = push_all_unique(s, prefixed_lines(f[0].1, spec_string_values(view_get(rule, f[0].0)), target));
    lemma_push_all_unique_distinct(s, prefixed_lines(f[0].1, spec_string_values(view_get(rule, f[0].0)), target));
    let o1 = push_all_unique(o0, prefixed_lines(f[1].1, spec_string_values(view_get(rule, f[1].0)), target));
    lemma_push_all_unique_distinct(o0, prefixed_lines(f[1].1, spec_string_values(view_get(rule, f[1].0)), target));
    let o2 = push_all_unique(o1, prefixed_lines(f[2].1, spec_string_values(view_get(rule, f[2].0)), target));
    lemma_push_all_unique_distinct(o1, prefixed_lines(f[2].1, spec_string_values(view_get(rule, f[2].0)), target));
    let o3 = push_all_unique(o2, prefixed_lines(f[3].1, spec_string_values(view_get(rule, f[3].0)), target));
    lemma_push_all_unique_distinct(o2, prefixed_lines(f[3].1, spec_string_values(view_get(rule, f[3].0)), target));
    let o4 = push_all_unique(o3, prefixed_lines(f[4].1, spec_string_values(view_get(rule, f[4].0)), target));
    lemma_push_all_unique_distinct(o3, prefixed_lines(f[4].1, spec_string_values(view_get(rule, f[4].0)), target));
    let o5 = push_all_unique(o4, prefixed_lines(f[5].1, spec_string_values(view_get(rule, f[5].0)), target));
    lemma_push_all_unique_distinct(o4, prefixed_lines(f[5].1, spec_string_values(view_get(rule, f[5].0)), target));
    let o6 = push_all_unique(o5, prefixed_lines(f[6].1, spec_string_values(view_get(rule, f[6].0)), target));
    lemma_push_all_unique_distinct(o5, prefixed_lines(f[6].1, spec_string_values(view_get(rule, f[6].0)), target));
    match spec_port_rule(view_get(rule, "port"@)) {
        Some(p) => lemma_push_unique_distinct(o6, "DST-PORT,"@ + p + ","@ + target),
        None => {},
    }
}

proof fn lemma_rules_fold_distinct(items: Seq<JsonView>)
    ensures
        no_duplicates(rules_fold(items)),
    decreases items.len(),
{
    if items.len() > 0 {
        lemma_rules_fold_distinct(items.drop_last());
        let rule = items.last();
        if view_is_object(rule) {
            match spec_rule_target(rule) {
                Some(t) => lemma_rule_step_distinct(rules_fold(items.drop_last()), rule, t),
                None => {},
            }
        }
    }
}

/// The Clash rules converted from a sing-box route never repeat a rule.
pub proof fn lemma_singbox_rules_distinct(route: Option<JsonView>)
    ensures
        no_duplicates(spec_singbox_rules(route)),
{
    match route {
        Some(r) => if view_is_object(r) {
            let acc = match view_get(r, "rules"@) {
                Some(JsonView::Array(items)) => {
                    lemma_rules_fold_distinct(items);
                    rules_fold(items)
                },
                _ => Seq::empty(),
            };
            match j_text(view_get(r, "final"@)) {
                Some(t) => lemma_push_unique_distinct(acc, "MATCH,"@ + t),
                None => {},
            }
        },
        None => {},
    }
}

} // verus!
