//! Template values and rendering, as `minijinja` does them.

use vstd::prelude::*;

use crate::json::{value_view, Json};
use crate::text::text_of;

verus! {

/// What a template sees of a value.
pub enum TemplateView {
    /// A text.
    Text(Seq<char>),
    /// A truth value.
    Flag(bool),
    /// Another value, such as a number.
    Data(Json),
    /// A list.
    List(Seq<TemplateView>),
    /// Named values, in order.
    Record(Seq<(Seq<char>, TemplateView)>),
}

/// The named values after `name` was given the value `value`: in the place of
/// the value that the name had, or as a new entry at the end.
pub open spec fn with_named(
    entries: Seq<(Seq<char>, TemplateView)>,
    name: Seq<char>,
    value: TemplateView,
) -> Seq<(Seq<char>, TemplateView)>
    decreases entries.len(),
{
    if entries.len() == 0 {
        seq![(name, value)]
    } else if entries[0].0 == name {
        seq![(name, value)] + entries.skip(1)
    } else {
        seq![entries[0]] + with_named(entries.skip(1), name, value)
    }
}

/// The named values that a list of entries gives, one after the other.
pub open spec fn record_of(entries: Seq<(Seq<char>, TemplateView)>) -> Seq<
    (Seq<char>, TemplateView),
>
    decreases entries.len(),
{
    if entries.len() == 0 {
        Seq::empty()
    } else {
        with_named(record_of(entries.drop_last()), entries.last().0, entries.last().1)
    }
}

/// No name stands twice.
pub open spec fn names_differ(entries: Seq<(Seq<char>, TemplateView)>) -> bool {
    forall|i: int, j: int|
        0 <= i < j < entries.len() ==> (#[trigger] entries[i]).0 != (#[trigger] entries[j]).0
}

/// A new name comes last.
proof fn lemma_new_name(
    entries: Seq<(Seq<char>, TemplateView)>,
    name: Seq<char>,
    value: TemplateView,
)
    requires
        forall|i: int| 0 <= i < entries.len() ==> (#[trigger] entries[i]).0 != name,
    ensures
        with_named(entries, name, value) == entries.push((name, value)),
    decreases entries.len(),
{
    if entries.len() > 0 {
        lemma_new_name(entries.skip(1), name, value);
        assert(seq![entries[0]] + entries.skip(1).push((name, value)) =~= entries.push(
            (name, value),
        ));
    } else {
        assert(seq![(name, value)] =~= entries.push((name, value)));
    }
}

/// Entries in which no name stands twice are the named values as they are.
pub proof fn lemma_record(entries: Seq<(Seq<char>, TemplateView)>)
    requires
        names_differ(entries),
    ensures
        record_of(entries) == entries,
    decreases entries.len(),
{
    if entries.len() > 0 {
        lemma_record(entries.drop_last());
        lemma_new_name(entries.drop_last(), entries.last().0, entries.last().1);
        assert(entries.drop_last().push(entries.last()) =~= entries);
    } else {
        assert(entries =~= Seq::empty());
    }
}

/// How a rendering ends: with the text, or with what failed and the message of
/// the template engine.
pub enum Rendering {
    /// The rendered text.
    Text(String),
    /// The template was not accepted.
    AddFailed(String),
    /// The template was not found again.
    GetFailed(String),
    /// The template did not render.
    RenderFailed(String),
}

/// The texts of a `Rendering`.
pub enum RenderingView {
    Text(Seq<char>),
    AddFailed(Seq<char>),
    GetFailed(Seq<char>),
    RenderFailed(Seq<char>),
}

impl View for Rendering {
    type V = RenderingView;

    open spec fn view(&self) -> RenderingView {
        match self {
            Rendering::Text(s) => RenderingView::Text(s@),
            Rendering::AddFailed(e) => RenderingView::AddFailed(e@),
            Rendering::GetFailed(e) => RenderingView::GetFailed(e@),
            Rendering::RenderFailed(e) => RenderingView::RenderFailed(e@),
        }
    }
}

/// `minijinja::Value`, carried and never looked into.
#[verifier::external_type_specification]
#[verifier::external_body]
pub struct ExTemplateValue(minijinja::Value);

/// What a `minijinja::Value` holds.
pub uninterp spec fn template_view(v: minijinja::Value) -> TemplateView;

/// What `minijinja` makes of a template: its name, its source, and the
/// context.
pub uninterp spec fn rendered(
    name: Seq<char>,
    source: Seq<char>,
    context: TemplateView,
) -> RenderingView;

/// `minijinja::Value::from` of a string.
#[verifier::external_body]
pub(crate) fn text_template_value(s: String) -> (v: minijinja::Value)
    ensures
        template_view(v) == TemplateView::Text(s@),
{
    minijinja::Value::from(s)
}

/// `minijinja::Value::from` of a truth value.
#[verifier::external_body]
pub(crate) fn flag_template_value(b: bool) -> (v: minijinja::Value)
    ensures
        template_view(v) == TemplateView::Flag(b),
{
    minijinja::Value::from(b)
}

/// What a template sees of a JSON value.
pub uninterp spec fn serialized_view(j: Json) -> TemplateView;

/// `minijinja::Value::from_serialize` of a JSON value. What it holds is a
/// function of the JSON value.
#[verifier::external_body]
pub(crate) fn json_template_value(j: &serde_json::Value) -> (v: minijinja::Value)
    ensures
        template_view(v) == serialized_view(value_view(*j)),
{
    minijinja::Value::from_serialize(j)
}

/// `minijinja::Value::from_iter` over values: a list of them.
#[verifier::external_body]
pub(crate) fn list_template_value(items: Vec<minijinja::Value>) -> (v: minijinja::Value)
    ensures
        template_view(v) == TemplateView::List(
            items@.map_values(|x: minijinja::Value| template_view(x)),
        ),
{
    minijinja::Value::from_iter(items)
}

/// `minijinja::Value::from_iter` over keys and values: a record of them. The map
/// behind it keeps its entries in the order in which their keys came.
#[verifier::external_body]
pub(crate) fn record_template_value(entries: Vec<(String, minijinja::Value)>) -> (v:
    minijinja::Value)
    ensures
        template_view(v) == TemplateView::Record(
            record_of(
                entries@.map_values(|e: (String, minijinja::Value)| (e.0@, template_view(e.1))),
            ),
        ),
{
    minijinja::Value::from_iter(entries)
}

/// The JSON text that `serde_json` writes for a template value; nothing where
/// it fails to.
pub uninterp spec fn template_json(v: TemplateView) -> Option<Seq<char>>;

/// `serde_json::to_string` of a `minijinja::Value`. What it writes is a function
/// of what the value holds.
#[verifier::external_body]
fn template_value_json(v: &minijinja::Value) -> (r: Option<String>)
    ensures
        text_of(r) == template_json(template_view(*v)),
{
    serde_json::to_string(v).ok()
}

/// The filter `tojson`: a value as JSON text, and an empty text where it has
/// none.
pub fn tojson(v: &minijinja::Value) -> (s: String)
    ensures
        s@ == (match template_json(template_view(*v)) {
            Some(text) => text,
            None => Seq::empty(),
        }),
{
    match template_value_json(v) {
        Some(text) => text,
        None => String::new(),
    }
}

/// `minijinja::Environment`: adds the template `source` under `name`, with the
/// filter [`tojson`], and renders it in
/// `context`. What comes out is a function of the three.
#[verifier::external_body]
pub(crate) fn render_template(name: &str, source: &str, context: &minijinja::Value) -> (r:
    Rendering)
    ensures
        r@ == rendered(name@, source@, template_view(*context)),
{
    let mut env = minijinja::Environment::new();
    if let Err(e) = env.add_template(name, source) {
        return Rendering::AddFailed(e.to_string());
    }
    env.add_filter("tojson", |v: &minijinja::Value| tojson(v));
    match env.get_template(name) {
        Err(e) => Rendering::GetFailed(e.to_string()),
        Ok(t) => match t.render(context) {
            Err(e) => Rendering::RenderFailed(e.to_string()),
            Ok(text) => Rendering::Text(text),
        },
    }
}

} // verus!
