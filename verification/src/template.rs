//! Templates: reusable, parameterized groups of transforms.
use vstd::prelude::*;
use crate::manifest::{ParamValue, Params, Transform, clone_param, param_copy, transform_names};
use crate::text::{has_prefix, has_suffix, trimmed};

verus! {

/// A parameter definition of a template.
#[derive(Debug)]
pub struct TemplateParam {
    pub name: String,
    pub description: Option<String>,
    pub default: Option<ParamValue>,
    pub required: bool,
}

/// A reusable group of transforms with placeholders `{{name}}` in their parameters.
#[derive(Debug)]
pub struct Template {
    pub name: String,
    pub description: Option<String>,
    pub parameters: Vec<TemplateParam>,
    pub transforms: Vec<Transform>,
}

/// Template registry: templates by name, a later registration replacing an earlier one.
#[derive(Debug)]
pub struct TemplateRegistry {
    pub templates: Vec<Template>,
}

/// Names of templates.
pub open spec fn template_names(ts: Seq<Template>) -> Seq<Seq<char>> {
    ts.map_values(|t: Template| t.name@)
}

/// Position of the first template named `name`, or `-1`.
pub open spec fn template_pos(ts: Seq<Template>, name: Seq<char>) -> int {
    crate::dag::first_index(template_names(ts), name)
}

/// The placeholder name in a parameter text `{{ name }}`, trimmed.
pub open spec fn placeholder(s: Seq<char>) -> Option<Seq<char>> {
    if s.len() >= 4 && has_prefix(s, "{{"@) && has_suffix(s.skip(2), "}}"@) {
        Some(trimmed(s.subrange(2, s.len() - 2)))
    } else {
        None
    }
}

/// The value an argument list gives to a name (its first entry).
pub open spec fn arg_value(args: Seq<(String, ParamValue)>, name: Seq<char>) -> Option<ParamValue> {
    let keys = args.map_values(|e: (String, ParamValue)| e.0@);
    if keys.contains(name) {
        Some(args[crate::dag::first_index(keys, name)].1)
    } else {
        None
    }
}

/// The default of the first template parameter called `name`.
pub open spec fn param_default(ps: Seq<TemplateParam>, name: Seq<char>) -> Option<ParamValue> {
    let names = ps.map_values(|p: TemplateParam| p.name@);
    if names.contains(name) {
        ps[crate::dag::first_index(names, name)].default
    } else {
        None
    }
}

/// What a parameter value becomes in an expansion: a placeholder takes the
/// argument of its name, else the template parameter's default, else stays.
pub open spec fn substituted(tpl: Template, args: Seq<(String, ParamValue)>, v: ParamValue) -> ParamValue {
    match v {
        ParamValue::String(s) => match placeholder(s@) {
            Some(p) => match arg_value(args, p) {
                Some(a) => a,
                None => match param_default(tpl.parameters@, p) {
                    Some(d) => d,
                    None => v,
                },
            },
            None => v,
        },
        _ => v,
    }
}

/// The expansion of one template transform under `prefix`.
pub open spec fn expanded(tpl: Template, args: Seq<(String, ParamValue)>, prefix: Seq<char>, t: Transform, r: Transform) -> bool {
    let internal = t.input@.len() > 0 && transform_names(tpl.transforms@).contains(t.input@);
    &&& r.name@ == prefix + "_"@ + t.name@
    &&& r.input@ == (if internal { prefix + "_"@ + t.input@ } else { t.input@ })
    &&& r.operation@ == t.operation@
    &&& r.params@.len() == t.params@.len()
    &&& forall|j: int| 0 <= j < t.params@.len() ==> #[trigger] r.params@[j].0@ == t.params@[j].0@
        && param_copy(r.params@[j].1, substituted(tpl, args, t.params@[j].1))
}

/// The trimmed placeholder name of a parameter text, if it is one.
fn placeholder_of(s: &str) -> (r: Option<&str>)
    ensures
        r matches Some(p) ==> placeholder(s@) == Some(p@),
        r is None ==> placeholder(s@) is None,
{
    let n = s.unicode_len();
    if n >= 4 && crate::text::starts_with(s, "{{") {
        let rest = s.substring_char(2, n);
        if crate::text::ends_with(rest, "}}") {
            let inner = s.substring_char(2, n - 2);
            return Some(crate::text::trim(inner));
        }
    }
    proof {
        if n >= 4 && has_prefix(s@, "{{"@) {
            assert(s@.subrange(2, n as int) =~= s@.skip(2));
        }
    }
    None
}

/// Position of the first argument named `name`.
fn arg_position(args: &Params, name: &str) -> (r: Option<usize>)
    ensures
        r matches Some(i) ==> i < args@.len() && arg_value(args@, name@) == Some(args@[i as int].1),
        r is None ==> arg_value(args@, name@) is None,
{
    let ghost keys = args@.map_values(|e: (String, ParamValue)| e.0@);
    let mut i: usize = 0;
    while i < args.len()
        invariant
            i <= args@.len(),
            keys == args@.map_values(|e: (String, ParamValue)| e.0@),
            crate::dag::first_index(keys.take(i as int), name@) == -1,
        decreases args@.len() - i,
    {
        proof {
            crate::dag::lemma_first_index_step(keys, i as int, name@);
        }
        if crate::text::str_eq(args[i].0.as_str(), name) {
            proof {
                crate::dag::lemma_first_index_prefix(keys, i + 1, name@);
                assert(keys[i as int] == name@);
            }
            return Some(i);
        }
        i = i + 1;
    }
    proof {
        assert(keys.take(args@.len() as int) =~= keys);
        crate::dag::lemma_first_index(keys, name@);
    }
    None
}

/// Position of the first template parameter named `name`.
fn param_position(ps: &Vec<TemplateParam>, name: &str) -> (r: Option<usize>)
    ensures
        r matches Some(i) ==> i < ps@.len() && param_default(ps@, name@) == ps@[i as int].default,
        r is None ==> param_default(ps@, name@) is None,
{
    let ghost keys = ps@.map_values(|p: TemplateParam| p.name@);
    let mut i: usize = 0;
    while i < ps.len()
        invariant
            i <= ps@.len(),
            keys == ps@.map_values(|p: TemplateParam| p.name@),
            crate::dag::first_index(keys.take(i as int), name@) == -1,
        decreases ps@.len() - i,
    {
        proof {
            crate::dag::lemma_first_index_step(keys, i as int, name@);
        }
        if crate::text::str_eq(ps[i].name.as_str(), name) {
            proof {
                crate::dag::lemma_first_index_prefix(keys, i + 1, name@);
                assert(keys[i as int] == name@);
            }
            return Some(i);
        }
        i = i + 1;
    }
    proof {
        assert(keys.take(ps@.len() as int) =~= keys);
        crate::dag::lemma_first_index(keys, name@);
    }
    None
}

/// The expanded value of one parameter.
fn substitute(tpl: &Template, args: &Params, v: &ParamValue) -> (r: ParamValue)
    ensures
        param_copy(r, substituted(*tpl, args@, *v)),
{
    if let ParamValue::String(s) = v {
        if let Some(p) = placeholder_of(s.as_str()) {
            if let Some(i) = arg_position(args, p) {
                return clone_param(&args[i].1);
            }
            if let Some(i) = param_position(&tpl.parameters, p) {
                if let Some(d) = &tpl.parameters[i].default {
                    return clone_param(d);
                }
            }
        }
    }
    clone_param(v)
}

/// Whether `name` is the name of one of the template's transforms.
fn is_internal(tpl: &Template, name: &str) -> (r: bool)
    ensures
        r == transform_names(tpl.transforms@).contains(name@),
{
    let ghost names = transform_names(tpl.transforms@);
    let mut i: usize = 0;
    while i < tpl.transforms.len()
        invariant
            i <= tpl.transforms@.len(),
            names == transform_names(tpl.transforms@),
            forall|j: int| 0 <= j < i ==> names[j] != name@,
        decreases tpl.transforms@.len() - i,
    {
        if crate::text::str_eq(tpl.transforms[i].name.as_str(), name) {
            proof {
                assert(names[i as int] == name@);
            }
            return true;
        }
        i = i + 1;
    }
    false
}

/// Position of the first template named `name`.
fn template_position(ts: &Vec<Template>, name: &str) -> (r: Option<usize>)
    ensures
        r matches Some(i) ==> i as int == template_pos(ts@, name@) && i < ts@.len(),
        r is None <==> template_pos(ts@, name@) < 0,
{
    let ghost keys = template_names(ts@);
    let mut i: usize = 0;
    while i < ts.len()
        invariant
            i <= ts@.len(),
            keys == template_names(ts@),
            crate::dag::first_index(keys.take(i as int), name@) == -1,
        decreases ts@.len() - i,
    {
        proof {
            crate::dag::lemma_first_index_step(keys, i as int, name@);
        }
        if crate::text::str_eq(ts[i].name.as_str(), name) {
            proof {
                assert(keys[i as int] == name@);
                crate::dag::lemma_first_index_prefix(keys, i + 1, name@);
            }
            return Some(i);
        }
        i = i + 1;
    }
    proof {
        assert(keys.take(ts@.len() as int) =~= keys);
        crate::dag::lemma_first_index(keys, name@);
    }
    None
}

impl TemplateRegistry {
    /// An empty registry.
    pub fn new() -> (r: Self)
        ensures
            r.templates@.len() == 0,
    {
        TemplateRegistry { templates: Vec::new() }
    }

    /// Registers a template, replacing any template of the same name.
    pub fn register(&mut self, template: Template)
        ensures
            template_pos(final(self).templates@, template.name@) >= 0,
            final(self).templates@[template_pos(final(self).templates@, template.name@)] == template,
            forall|n: Seq<char>| n != template.name@ ==> #[trigger] template_pos(final(self).templates@, n)
                == template_pos(old(self).templates@, n),
    {
        let ghost old_t = self.templates@;
        let ghost old_names = template_names(old_t);
        let ghost name = template.name@;
        let mut i: usize = 0;
        while i < self.templates.len()
            invariant
                name == template.name@,
                old_t == old(self).templates@,
                self.templates@ == old_t,
                old_names == template_names(old_t),
                i <= old_t.len(),
                crate::dag::first_index(old_names.take(i as int), name) == -1,
            decreases old_t.len() - i,
        {
            proof {
                crate::dag::lemma_first_index_step(old_names, i as int, name);
            }
            let eq = crate::text::str_eq(self.templates[i].name.as_str(), template.name.as_str());
            if eq {
                proof {
                    assert(self.templates@[i as int].name@ == template.name@);
                    assert(old_t[i as int].name@ == name);
                    assert(old_names[i as int] == name);
                    crate::dag::lemma_first_index_prefix(old_names, i + 1, name);
                }
                self.templates.set(i, template);
                proof {
                    let names = template_names(self.templates@);
                    assert(names =~= old_names);
                    assert forall|n: Seq<char>| n != name implies #[trigger] template_pos(self.templates@, n)
                        == template_pos(old_t, n) by {
                        assert(template_names(self.templates@) == template_names(old_t));
                    }
                }
                return;
            }
            i = i + 1;
        }
        proof {
            assert(old_names.take(old_t.len() as int) =~= old_names);
        }
        self.templates.push(template);
        proof {
            let names = template_names(self.templates@);
            assert(names =~= old_names.push(name));
            assert(names.take(old_t.len() as int) =~= old_names);
            crate::dag::lemma_first_index_step(names, old_t.len() as int, name);
            assert(names.take(names.len() as int) =~= names);
            assert forall|n: Seq<char>| n != name implies #[trigger] template_pos(self.templates@, n)
                == template_pos(old_t, n) by {
                crate::dag::lemma_first_index(old_names, n);
                crate::dag::lemma_first_index_step(names, old_t.len() as int, n);
                if crate::dag::first_index(old_names, n) >= 0 {
                    crate::dag::lemma_first_index_prefix(names, old_t.len() as int, n);
                }
            }
        }
    }

    /// Expands the template `template_name` with the given arguments: each of its
    /// transforms renamed `<prefix>_<name>`, inputs that name another of its
    /// transforms prefixed likewise, and placeholders substituted (see `expanded`).
    /// `None` when no template has that name.
    pub fn expand(&self, template_name: &str, args: &Params, prefix: &str) -> (r: Option<Vec<Transform>>)
        ensures
            r is None <==> template_pos(self.templates@, template_name@) < 0,
            r matches Some(v) ==> {
                let tpl = self.templates@[template_pos(self.templates@, template_name@)];
                &&& v@.len() == tpl.transforms@.len()
                &&& forall|i: int| 0 <= i < v@.len() ==> expanded(tpl, args@, prefix@, tpl.transforms@[i], #[trigger] v@[i])
            },
    {
        let ti = match template_position(&self.templates, template_name) {
            Some(ti) => ti,
            None => {
                return None;
            },
        };
        let tpl = &self.templates[ti];
        let mut out: Vec<Transform> = Vec::new();
        let mut i: usize = 0;
        while i < tpl.transforms.len()
            invariant
                i <= tpl.transforms@.len(),
                out@.len() == i,
                forall|q: int| 0 <= q < i ==> expanded(*tpl, args@, prefix@, tpl.transforms@[q], #[trigger] out@[q]),
            decreases tpl.transforms@.len() - i,
        {
            let t = &tpl.transforms[i];
            let name = crate::text::cat3(prefix, "_", t.name.as_str());
            let internal = t.input.unicode_len() > 0 && is_internal(tpl, t.input.as_str());
            let input = if internal {
                crate::text::cat3(prefix, "_", t.input.as_str())
            } else {
                t.input.clone()
            };
            let mut params: Params = Vec::new();
            let mut j: usize = 0;
            while j < t.params.len()
                invariant
                    j <= t.params@.len(),
                    params@.len() == j,
                    forall|q: int| 0 <= q < j ==> #[trigger] params@[q].0@ == t.params@[q].0@
                        && param_copy(params@[q].1, substituted(*tpl, args@, t.params@[q].1)),
                decreases t.params@.len() - j,
            {
                let v = substitute(tpl, args, &t.params[j].1);
                params.push((t.params[j].0.clone(), v));
                j = j + 1;
            }
            let ghost ps = params@;
            let r = Transform { name, input, operation: t.operation.clone(), params };
            assert forall|q: int| 0 <= q < t.params@.len() implies #[trigger] r.params@[q].0@ == t.params@[q].0@
                && param_copy(r.params@[q].1, substituted(*tpl, args@, t.params@[q].1)) by {
                assert(r.params@[q] == ps[q]);
            }
            assert(expanded(*tpl, args@, prefix@, tpl.transforms@[i as int], r));
            let ghost before = out@;
            out.push(r);
            assert forall|q: int| 0 <= q < i + 1 implies expanded(*tpl, args@, prefix@, tpl.transforms@[q], #[trigger] out@[q]) by {
                if q < i {
                    assert(out@[q] == before[q]);
                }
            }
            i = i + 1;
        }
        Some(out)
    }
}

} // verus!
