//! Kernel source text, rendered from templates.
//!
//! The templates are this library's own, kept in a [`tera::Tera`] registry
//! that nothing else can fill. This module fixes the variables that a
//! template is rendered with.

use vstd::prelude::*;

use crate::error::ErrorKind;
use crate::graph::ExprId;
use crate::tensor::{Layout, LayoutModel};
use crate::text::{decimal, decimal_text};
use crate::wgpu::expr::WgpuExpr;

verus! {

/// A registry of templates.
#[verifier::external_type_specification]
#[verifier::external_body]
pub struct ExTera(tera::Tera);

/// The variables handed to a template.
#[verifier::external_type_specification]
#[verifier::external_body]
pub struct ExContext(tera::Context);

/// A JSON value: the value of a template variable.
#[verifier::external_type_specification]
#[verifier::external_body]
pub struct ExValue(tera::Value);

/// A JSON object under construction.
#[verifier::external_type_specification]
#[verifier::external_body]
#[verifier::reject_recursive_types(K)]
#[verifier::reject_recursive_types(V)]
pub struct ExMap<K, V>(tera::Map<K, V>);

/// Why a template could not be rendered.
#[verifier::external_type_specification]
#[verifier::external_body]
pub struct ExRenderError(tera::Error);

/// Mathematical model of the JSON values that this module builds.
pub enum Json {
    /// An unsigned integer.
    Number(nat),
    /// A string.
    Text(Seq<char>),
    /// An array, in order.
    List(Seq<Json>),
    /// An object: its fields by name.
    Record(Map<Seq<char>, Json>),
}

/// No field and no variable at all.
pub open spec fn no_entries() -> Map<Seq<char>, Json> {
    Map::empty()
}

/// What `value` holds.
pub uninterp spec fn json_of(value: tera::Value) -> Json;

/// The fields of `record`, by name.
pub uninterp spec fn fields_of(record: tera::Map<String, tera::Value>) -> Map<Seq<char>, Json>;

/// The variables of `context`, by name.
pub uninterp spec fn variables_of(context: tera::Context) -> Map<Seq<char>, Json>;

/// The templates of `registry`: the text of each by its name.
pub uninterp spec fn templates_of(registry: tera::Tera) -> Map<Seq<char>, Seq<char>>;

/// No template at all.
pub open spec fn no_templates() -> Map<Seq<char>, Seq<char>> {
    Map::empty()
}

/// The templates that a registry holds once the template `content` has been
/// added under `name` to a registry that held `before`.
pub uninterp spec fn registered_after(
    before: Map<Seq<char>, Seq<char>>,
    name: Seq<char>,
    content: Seq<char>,
) -> Map<Seq<char>, Seq<char>>;

/// The text that the template `name` among `templates` renders to with the
/// given variables, if it renders.
pub uninterp spec fn rendered_text(
    templates: Map<Seq<char>, Seq<char>>,
    name: Seq<char>,
    variables: Map<Seq<char>, Json>,
) -> Option<Seq<char>>;

/// Calls `tera::Tera::default`, which makes a registry that holds no
/// template.
#[verifier::external_body]
fn empty_templates() -> (templates: tera::Tera)
    ensures
        templates_of(templates) == no_templates(),
{
    tera::Tera::default()
}

/// Calls `tera::Tera::add_raw_template` on a template of this library. The
/// template is parsed and stored under `name`; where that fails the registry
/// is as it was, or holds the template all the same. Which of these it is
/// depends on the registry, the name and the text alone.
#[verifier::external_body]
fn add_template(registry: &mut tera::Tera, name: &str, content: &str) -> (added: Result<
    (),
    tera::Error,
>)
    requires
        kernel_templates().contains_pair(name@, content@),
    ensures
        templates_of(*final(registry)) == registered_after(
            templates_of(*old(registry)),
            name@,
            content@,
        ),
        added is Ok ==> templates_of(*final(registry)) == templates_of(*old(registry)).insert(
            name@,
            content@,
        ),
        added is Err ==> templates_of(*final(registry)) == templates_of(*old(registry))
            || templates_of(*final(registry)) == templates_of(*old(registry)).insert(
            name@,
            content@,
        ),
{
    registry.add_raw_template(name, content)
}

/// Calls `tera::Context::new`, which makes a context without variables.
#[verifier::external_body]
fn new_context() -> (context: tera::Context)
    ensures
        variables_of(context) == no_entries(),
{
    tera::Context::new()
}

/// Calls `tera::Context::insert` with a JSON value. The value is converted
/// to a JSON value, which gives the same value again, and stored under `key`
/// in place of what may have been there; the other variables stay.
#[verifier::external_body]
fn insert(context: &mut tera::Context, key: &str, value: &tera::Value)
    ensures
        variables_of(*final(context)) == variables_of(*old(context)).insert(key@, json_of(*value)),
{
    context.insert(key, value);
}

/// Calls `tera::Tera::render`, which renders the template `name` with the
/// variables of `context`, or says why it cannot. The registry holds no
/// template but those of this library, and the variables are those of an
/// elementwise kernel: numbers, strings, and arrays and objects of these.
/// The templates look variables up, loop over arrays and compare a number
/// with zero; they call no function, apply no filter and do no arithmetic. So
/// rendering ends without a panic, and what it gives depends on the
/// templates, the name and the variables alone.
#[verifier::external_body]
fn render(templates: &tera::Tera, name: &str, context: &tera::Context) -> (rendered: Result<
    String,
    tera::Error,
>)
    requires
        templates_of(*templates).submap_of(kernel_templates()),
        exists|width: u32, output: LayoutModel, operands: Seq<(usize, LayoutModel)>, expr: Seq<char>|
            variables_of(*context) == #[trigger] elemwise_variables(width, output, operands, expr),
    ensures
        match rendered {
            Ok(text) => rendered_text(templates_of(*templates), name@, variables_of(*context))
                == Some(text@),
            Err(_) => rendered_text(templates_of(*templates), name@, variables_of(*context))
                is None,
        },
{
    templates.render(name, context)
}

/// Calls `tera::Value::from` on an unsigned integer, which gives the number
/// of that value.
#[verifier::external_body]
fn number(value: usize) -> (json: tera::Value)
    ensures
        json_of(json) == Json::Number(value as nat),
{
    tera::Value::from(value)
}

/// Calls `tera::Value::from` on a string slice, which gives the string with
/// the same characters.
#[verifier::external_body]
fn text(value: &str) -> (json: tera::Value)
    ensures
        json_of(json) == Json::Text(value@),
{
    tera::Value::from(value)
}

/// Calls `tera::Value::from` on a vector of values, which gives the array of
/// these values in the same order.
#[verifier::external_body]
fn list(items: Vec<tera::Value>) -> (json: tera::Value)
    ensures
        json_of(json) == Json::List(items@.map_values(|item: tera::Value| json_of(item))),
{
    tera::Value::from(items)
}

/// Calls `tera::Map::new`, which makes an object without fields.
#[verifier::external_body]
fn new_record() -> (record: tera::Map<String, tera::Value>)
    ensures
        fields_of(record) == no_entries(),
{
    tera::Map::new()
}

/// Calls `tera::Map::insert`, which stores `value` under `name` in place of
/// what may have been there; the other fields stay.
#[verifier::external_body]
fn set_field(record: &mut tera::Map<String, tera::Value>, name: String, value: tera::Value)
    ensures
        fields_of(*final(record)) == fields_of(*old(record)).insert(name@, json_of(value)),
{
    record.insert(name, value);
}

/// Calls `tera::Value::from` on an object, which gives the object with the
/// same fields.
#[verifier::external_body]
fn object(record: tera::Map<String, tera::Value>) -> (json: tera::Value)
    ensures
        json_of(json) == Json::Record(fields_of(record)),
{
    tera::Value::from(record)
}

/// Name of the template for elementwise kernels.
pub const ELEMWISE: &'static str = "elemwise";

/// The template for elementwise kernels, in WGSL. One invocation computes one
/// element: it splits its number into one coordinate per dimension of the
/// output, finds the element of every operand through the operand's own
/// strides, and stores the value of the expression. The output is bound
/// first, then the operands in the order of `inputs`.
pub const ELEMWISE_TEMPLATE: &'static str = "// Elementwise kernel: output = {{ expr }}

@group(0) @binding(0)
var<storage, read_write> output: array<f32>;
{% for name in inputs %}
@group(0) @binding({{ loop.index }})
var<storage, read> {{ name }}: array<f32>;
{% endfor %}
@compute @workgroup_size({{ workgroup_size_x }})
fn main(@builtin(global_invocation_id) invocation: vec3<u32>) {
    if (invocation.x >= {{ layouts.output.elements }}u) {
        return;
    }
    var rest = invocation.x;
    var block = {{ layouts.output.elements }}u;
    var coordinate = 0u;
    var offset_output = 0u;
{% for name in inputs %}    var offset_{{ name }} = 0u;
{% endfor %}{% for dim in layouts.output.dims %}{% if dim != 0 %}{% set position = loop.index0 %}    block = block / {{ dim }}u;
    coordinate = rest / block;
    rest = rest % block;
    offset_output = offset_output + coordinate * {{ layouts.output.strides[position] }}u;
{% for name in inputs %}    offset_{{ name }} = offset_{{ name }} + coordinate * {{ layouts[name].strides[position] }}u;
{% endfor %}{% endif %}{% endfor %}{% for name in inputs %}    let elem_{{ name }} = {{ name }}[offset_{{ name }}];
{% endfor %}    output[offset_output] = {{ expr }};
}
";

/// The templates of this library: the text of each by its name.
pub open spec fn kernel_templates() -> Map<Seq<char>, Seq<char>> {
    no_templates().insert(ELEMWISE@, ELEMWISE_TEMPLATE@)
}

/// The registry of the templates that kernels are rendered from.
pub struct KernelTemplates {
    registry: tera::Tera,
}

impl KernelTemplates {
    /// The templates that are registered: the text of each by its name.
    pub closed spec fn registered(self) -> Map<Seq<char>, Seq<char>> {
        templates_of(self.registry)
    }

    /// The registry holds templates of this library only.
    #[verifier::type_invariant]
    spec fn only_kernel_templates(self) -> bool {
        self.registered().submap_of(kernel_templates())
    }

    /// The registry with the templates of this library: what is left in an
    /// empty registry when the template for elementwise kernels has been
    /// added. Should the template fail to register, rendering it fails later;
    /// no other template ever gets in.
    pub fn new() -> (templates: KernelTemplates)
        ensures
            templates.registered() == registered_after(
                no_templates(),
                ELEMWISE@,
                ELEMWISE_TEMPLATE@,
            ),
            templates.registered().submap_of(kernel_templates()),
    {
        let mut registry = empty_templates();
        let _ = add_template(&mut registry, ELEMWISE, ELEMWISE_TEMPLATE);
        KernelTemplates { registry }
    }

    /// Renders the template `name` with the variables of `context`, which
    /// are those of an elementwise kernel, or says why it cannot.
    fn render(&self, name: &str, context: &tera::Context) -> (rendered: Result<
        String,
        tera::Error,
    >)
        requires
            exists|width: u32, output: LayoutModel, operands: Seq<(usize, LayoutModel)>, expr: Seq<char>|
                variables_of(*context) == #[trigger] elemwise_variables(
                    width,
                    output,
                    operands,
                    expr,
                ),
        ensures
            match rendered {
                Ok(text) => rendered_text(self.registered(), name@, variables_of(*context))
                    == Some(text@),
                Err(_) => rendered_text(self.registered(), name@, variables_of(*context))
                    is None,
            },
    {
        proof {
            use_type_invariant(self);
        }
        render(&self.registry, name, context)
    }
}

impl Default for KernelTemplates {
    fn default() -> (templates: KernelTemplates) {
        KernelTemplates::new()
    }
}

/// The name under which a kernel knows the buffer of operand `id`.
pub open spec fn input_name_text(id: usize) -> Seq<char> {
    "input_"@ + decimal_text(id as nat)
}

/// The name under which a kernel knows the current element of operand `id`.
pub open spec fn element_name_text(id: usize) -> Seq<char> {
    "elem_input_"@ + decimal_text(id as nat)
}

/// The name under which a kernel knows the buffer of operand `id`.
pub fn input_name(id: ExprId) -> (name: String)
    ensures
        name@ == input_name_text(id@),
{
    let mut name = String::from_str("input_");
    let digits = decimal(id.index());
    name.append(digits.as_str());
    name
}

/// The name under which a kernel knows the current element of operand `id`.
pub fn element_name(id: ExprId) -> (name: String)
    ensures
        name@ == element_name_text(id@),
{
    let mut name = String::from_str("elem_input_");
    let digits = decimal(id.index());
    name.append(digits.as_str());
    name
}

/// The array of the given numbers.
pub open spec fn numbers_json(items: Seq<usize>) -> Json {
    Json::List(items.map_values(|item: usize| Json::Number(item as nat)))
}

/// The object that tells a template about a layout: its element count under
/// `elements`, its strides under `strides`, its dimension sizes under `dims`.
pub open spec fn layout_json(elements: nat, strides: Seq<usize>, dims: Seq<usize>) -> Json {
    Json::Record(
        Map::<Seq<char>, Json>::empty().insert("elements"@, Json::Number(elements)).insert(
            "strides"@,
            numbers_json(strides),
        ).insert("dims"@, numbers_json(dims)),
    )
}

/// The handles of a list of operands.
pub open spec fn operand_handles(operands: Seq<(ExprId, &Layout)>) -> Seq<usize> {
    operands.map_values(|operand: (ExprId, &Layout)| operand.0@)
}

/// The handles and layouts that a list of operands stands for.
pub open spec fn operand_models(operands: Seq<(ExprId, &Layout)>) -> Seq<(usize, LayoutModel)> {
    operands.map_values(|operand: (ExprId, &Layout)| (operand.0@, operand.1@))
}

/// The layouts of the first `upto` operands, each under the operand's name.
pub open spec fn operand_layouts(operands: Seq<(usize, LayoutModel)>, upto: int) -> Map<
    Seq<char>,
    Json,
>
    decreases upto,
{
    if upto <= 0 {
        Map::empty()
    } else {
        let operand = operands[upto - 1];
        operand_layouts(operands, upto - 1).insert(
            input_name_text(operand.0),
            layout_json(operand.1.elements(), operand.1.strides, operand.1.dims),
        )
    }
}

/// The names of the operands, in order.
pub open spec fn operand_names(operands: Seq<(usize, LayoutModel)>) -> Seq<Json> {
    Seq::new(operands.len(), |i: int| Json::Text(input_name_text(operands[i].0)))
}

/// The variables that the template of an elementwise kernel is rendered
/// with: the width of a work group under `workgroup_size_x`; under `layouts`
/// the layout of every operand by the operand's name, and that of the result
/// under `output`; the operands' names under `inputs`; and the text of the
/// expression under `expr`.
pub open spec fn elemwise_variables(
    workgroup_size_x: u32,
    output: LayoutModel,
    operands: Seq<(usize, LayoutModel)>,
    expr: Seq<char>,
) -> Map<Seq<char>, Json> {
    Map::<Seq<char>, Json>::empty().insert(
        "workgroup_size_x"@,
        Json::Number(workgroup_size_x as nat),
    ).insert(
        "layouts"@,
        Json::Record(
            operand_layouts(operands, operands.len() as int).insert(
                "output"@,
                layout_json(output.elements(), output.strides, output.dims),
            ),
        ),
    ).insert("inputs"@, Json::List(operand_names(operands))).insert("expr"@, Json::Text(expr))
}

/// What a template is told about a layout.
#[derive(Debug)]
pub struct LayoutInfo {
    pub elements: usize,
    pub strides: Vec<usize>,
    pub dims: Vec<usize>,
}

impl LayoutInfo {
    pub fn new(layout: &Layout) -> (info: LayoutInfo)
        requires
            layout@.wf(),
        ensures
            info.elements == layout@.elements(),
            info.strides@ == layout@.strides,
            info.dims@ == layout@.dims,
    {
        LayoutInfo {
            elements: layout.elements(),
            strides: vstd::slice::slice_to_vec(layout.strides()),
            dims: vstd::slice::slice_to_vec(layout.dims()),
        }
    }
}

/// The list of the given numbers, as a value.
fn numbers(items: &Vec<usize>) -> (json: tera::Value)
    ensures
        json_of(json) == numbers_json(items@),
{
    let mut values: Vec<tera::Value> = Vec::new();
    let mut i: usize = 0;
    while i < items.len()
        invariant
            i <= items@.len(),
            values@.len() == i,
            forall|k: int| 0 <= k < i ==> json_of(#[trigger] values@[k]) == Json::Number(
                items@[k] as nat,
            ),
        decreases items@.len() - i,
    {
        values.push(number(items[i]));
        i = i + 1;
    }
    proof {
        assert(values@.map_values(|item: tera::Value| json_of(item)) =~= items@.map_values(
            |item: usize| Json::Number(item as nat),
        ));
    }
    list(values)
}

/// The object with the fields `elements`, `strides` and `dims` of `info`.
fn layout_value(info: &LayoutInfo) -> (json: tera::Value)
    ensures
        json_of(json) == layout_json(info.elements as nat, info.strides@, info.dims@),
{
    let mut record = new_record();
    set_field(&mut record, String::from_str("elements"), number(info.elements));
    set_field(&mut record, String::from_str("strides"), numbers(&info.strides));
    set_field(&mut record, String::from_str("dims"), numbers(&info.dims));
    object(record)
}

/// What is handed on of a rendered template: its text, or the news that the
/// backend failed.
pub fn kernel_source(rendered: Result<String, tera::Error>) -> (result: Result<String, ErrorKind>)
    ensures
        match rendered {
            Ok(source) => result == Ok::<String, ErrorKind>(source),
            Err(_) => result == Err::<String, ErrorKind>(ErrorKind::BackendFailure),
        },
{
    match rendered {
        Ok(source) => Ok(source),
        Err(_) => Err(ErrorKind::BackendFailure),
    }
}

/// The source text of the kernel that computes `expr` element by element:
/// what the template renders to with the variables below, or a failure of the
/// backend where it does not render.
///
/// The template [`ELEMWISE`] of `templates` is rendered with four variables:
/// `workgroup_size_x`; `layouts`, which maps `output` and the name of every
/// operand to the element count, strides and dimension sizes of its layout;
/// `inputs`, the operands' names in the order given; and `expr`, the text of
/// `expr`. An operand is named `input_` and its handle's number, so no
/// operand is given twice.
pub fn elemwise(
    templates: &KernelTemplates,
    workgroup_size_x: u32,
    output_layout: &Layout,
    layouts: &Vec<(ExprId, &Layout)>,
    expr: &WgpuExpr,
) -> (result: Result<String, ErrorKind>)
    requires
        output_layout@.wf(),
        forall|i: int| 0 <= i < layouts@.len() ==> (#[trigger] layouts@[i]).1@.wf(),
        operand_handles(layouts@).no_duplicates(),
        expr.wf(),
    ensures
        match result {
            Ok(source) => rendered_text(
                templates.registered(),
                ELEMWISE@,
                elemwise_variables(
                    workgroup_size_x,
                    output_layout@,
                    operand_models(layouts@),
                    expr.text(),
                ),
            ) == Some(source@),
            Err(error) => error == ErrorKind::BackendFailure && rendered_text(
                templates.registered(),
                ELEMWISE@,
                elemwise_variables(
                    workgroup_size_x,
                    output_layout@,
                    operand_models(layouts@),
                    expr.text(),
                ),
            ) is None,
        },
{
    let context = elemwise_context(workgroup_size_x, output_layout, layouts, expr);
    kernel_source(templates.render(ELEMWISE, &context))
}

/// The variables that the template of an elementwise kernel is rendered with.
pub fn elemwise_context(
    workgroup_size_x: u32,
    output_layout: &Layout,
    layouts: &Vec<(ExprId, &Layout)>,
    expr: &WgpuExpr,
) -> (context: tera::Context)
    requires
        output_layout@.wf(),
        forall|i: int| 0 <= i < layouts@.len() ==> (#[trigger] layouts@[i]).1@.wf(),
        operand_handles(layouts@).no_duplicates(),
        expr.wf(),
    ensures
        variables_of(context) == elemwise_variables(
            workgroup_size_x,
            output_layout@,
            operand_models(layouts@),
            expr.text(),
        ),
{
    let ghost operands = operand_models(layouts@);
    let mut context = new_context();
    insert(&mut context, "workgroup_size_x", &number(workgroup_size_x as usize));
    let mut entries = new_record();
    let mut names: Vec<tera::Value> = Vec::new();
    let mut i: usize = 0;
    while i < layouts.len()
        invariant
            i <= layouts@.len(),
            operands == operand_models(layouts@),
            forall|k: int| 0 <= k < layouts@.len() ==> (#[trigger] layouts@[k]).1@.wf(),
            fields_of(entries) == operand_layouts(operands, i as int),
            names@.len() == i,
            forall|k: int| 0 <= k < i ==> json_of(#[trigger] names@[k]) == Json::Text(
                input_name_text(operands[k].0),
            ),
        decreases layouts@.len() - i,
    {
        let name = input_name(layouts[i].0);
        names.push(text(name.as_str()));
        let info = LayoutInfo::new(layouts[i].1);
        set_field(&mut entries, name, layout_value(&info));
        i = i + 1;
    }
    let info = LayoutInfo::new(output_layout);
    set_field(&mut entries, String::from_str("output"), layout_value(&info));
    insert(&mut context, "layouts", &object(entries));
    proof {
        assert(names@.map_values(|item: tera::Value| json_of(item)) =~= operand_names(operands));
    }
    insert(&mut context, "inputs", &list(names));
    let source = expr.to_text();
    insert(&mut context, "expr", &text(source.as_str()));
    context
}

} // verus!
