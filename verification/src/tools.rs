//! Builders for a function-calling tool description: the tool, its
//! function, the function's parameters and their properties.

use vstd::prelude::*;

use crate::jsontext::{json_string, spec_json_string};

verus! {

/// One parameter property: name, type, description, optional enumeration
/// of allowed values, and whether the parameter is required.
pub struct Property<'a> {
    pub variable_name: &'a str,
    pub variable_type: &'a str,
    pub variable_description: &'a str,
    pub enum_values: Vec<&'a str>,
    pub required: bool,
}

impl<'a> Property<'a> {
    pub fn new(
        variable_name: &'a str,
        variable_type: &'a str,
        variable_description: &'a str,
    ) -> (r: Self)
        ensures
            r.variable_name == variable_name,
            r.variable_type == variable_type,
            r.variable_description == variable_description,
            r.enum_values@ == Seq::<&'a str>::empty(),
            r.required == false,
    {
        let r = Property {
            variable_name,
            variable_type,
            variable_description,
            enum_values: Vec::new(),
            required: false,
        };
        proof {
            assert(r.enum_values@ =~= Seq::<&'a str>::empty());
        }
        r
    }

    pub fn with_enum_values(self, enum_values: Vec<&'a str>) -> (r: Self)
        ensures
            r.variable_name == self.variable_name,
            r.variable_type == self.variable_type,
            r.variable_description == self.variable_description,
            r.enum_values == enum_values,
            r.required == self.required,
    {
        let mut s = self;
        s.enum_values = enum_values;
        s
    }

    pub fn with_required(self, required: bool) -> (r: Self)
        ensures
            r.variable_name == self.variable_name,
            r.variable_type == self.variable_type,
            r.variable_description == self.variable_description,
            r.enum_values == self.enum_values,
            r.required == required,
    {
        let mut s = self;
        s.required = required;
        s
    }
}

/// The ordered collection of properties.
pub struct Properties<'a> {
    pub props: Vec<Property<'a>>,
}

impl<'a> Properties<'a> {
    pub fn default() -> (r: Self)
        ensures
            r.props@ == Seq::<Property<'a>>::empty(),
    {
        let r = Properties { props: Vec::new() };
        proof {
            assert(r.props@ =~= Seq::<Property<'a>>::empty());
        }
        r
    }

    pub fn add_property(self, prop: Property<'a>) -> (r: Self)
        ensures
            r.props@ == self.props@.push(prop),
    {
        let mut s = self;
        s.props.push(prop);
        s
    }
}

/// The names of the properties marked required, in order.
pub open spec fn spec_required_names(props: Seq<Property>) -> Seq<&str> {
    props.filter(|p: Property| p.required).map_values(|p: Property| p.variable_name)
}

/// A function's parameter block: its type, properties, and the list of
/// required property names.
pub struct Parameters<'a> {
    pub param_type: &'a str,
    pub properties: Properties<'a>,
    pub required: Vec<&'a str>,
}

impl<'a> Parameters<'a> {
    pub fn default() -> (r: Self)
        ensures
            r.param_type@ == "object"@,
            r.properties.props@ == Seq::<Property<'a>>::empty(),
            r.required@ == Seq::<&'a str>::empty(),
    {
        let r = Parameters {
            param_type: "object",
            properties: Properties::default(),
            required: Vec::new(),
        };
        proof {
            assert(r.required@ =~= Seq::<&'a str>::empty());
        }
        r
    }

    pub fn with_param_type(self, param_type: &'a str) -> (r: Self)
        ensures
            r.param_type == param_type,
            r.properties == self.properties,
            r.required == self.required,
    {
        let mut s = self;
        s.param_type = param_type;
        s
    }

    /// Installs the properties and collects the names of those marked
    /// required.
    pub fn with_properties(self, properties: Properties<'a>) -> (r: Self)
        ensures
            r.param_type == self.param_type,
            r.properties == properties,
            r.required@ == spec_required_names(properties.props@),
    {
        let ghost keep = |p: Property<'a>| p.required;
        let mut required: Vec<&'a str> = Vec::new();
        let mut i: usize = 0;
        let n = properties.props.len();
        while i < n
            invariant
                n == properties.props@.len(),
                0 <= i <= n,
                keep == (|p: Property<'a>| p.required),
                required@ == properties.props@.take(i as int).filter(keep).map_values(
                    |p: Property<'a>| p.variable_name,
                ),
            decreases n - i,
        {
            let ghost prefix = properties.props@.take(i as int);
            proof {
                assert(properties.props@.take(i + 1) =~= prefix.push(
                    properties.props@[i as int],
                ));
                crate::seqtools::lemma_filter_push(prefix, keep, properties.props@[i as int]);
            }
            let ghost before = required@;
            if properties.props[i].required {
                required.push(properties.props[i].variable_name);
                proof {
                    assert(required@ =~= prefix.filter(keep).push(
                        properties.props@[i as int],
                    ).map_values(|p: Property<'a>| p.variable_name));
                }
            }
            i = i + 1;
        }
        proof {
            assert(properties.props@.take(n as int) =~= properties.props@);
        }
        let mut s = self;
        s.properties = properties;
        s.required = required;
        s
    }
}

/// The function a tool exposes.
pub struct Functions<'a> {
    pub name: &'a str,
    pub description: &'a str,
    pub parameters: Parameters<'a>,
}

impl<'a> Functions<'a> {
    pub fn default() -> (r: Self)
        ensures
            r.name@ == ""@,
            r.description@ == ""@,
            r.parameters.param_type@ == "object"@,
            r.parameters.properties.props@ == Seq::<Property<'a>>::empty(),
            r.parameters.required@ == Seq::<&'a str>::empty(),
    {
        Functions { name: "", description: "", parameters: Parameters::default() }
    }

    pub fn with_name(self, name: &'a str) -> (r: Self)
        ensures
            r.name == name,
            r.description == self.description,
            r.parameters == self.parameters,
    {
        let mut s = self;
        s.name = name;
        s
    }

    pub fn with_description(self, description: &'a str) -> (r: Self)
        ensures
            r.name == self.name,
            r.description == description,
            r.parameters == self.parameters,
    {
        let mut s = self;
        s.description = description;
        s
    }

    pub fn with_parameters(self, parameters: Parameters<'a>) -> (r: Self)
        ensures
            r.name == self.name,
            r.description == self.description,
            r.parameters == parameters,
    {
        let mut s = self;
        s.parameters = parameters;
        s
    }
}

/// A whole tool description.
pub struct OpenAITools<'a> {
    pub tool_type: &'a str,
    pub function: Functions<'a>,
}

impl<'a> OpenAITools<'a> {
    pub fn default() -> (r: Self)
        ensures
            r.tool_type@ == "function"@,
            r.function.name@ == ""@,
            r.function.description@ == ""@,
    {
        OpenAITools { tool_type: "function", function: Functions::default() }
    }

    pub fn with_type(self, tool_type: &'a str) -> (r: Self)
        ensures
            r.tool_type == tool_type,
            r.function == self.function,
    {
        let mut s = self;
        s.tool_type = tool_type;
        s
    }

    pub fn with_function(self, function: Functions<'a>) -> (r: Self)
        ensures
            r.tool_type == self.tool_type,
            r.function == function,
    {
        let mut s = self;
        s.function = function;
        s
    }

    /// Renders the whole tool description as JSON text.
    pub fn build(self) -> (r: String)
        ensures
            r@ == spec_tool_json(self),
    {
        proof {
            reveal_strlit("{\"type\":");
            reveal_strlit(",\"function\":");
            reveal_strlit("}");
        }
        let function = functions_json(&self.function);
        let r = String::from_str("{\"type\":").concat(json_string(self.tool_type).as_str())
            .concat(",\"function\":").concat(function.as_str()).concat("}");
        proof {
            assert(r@ =~= spec_tool_json(self));
        }
        r
    }
}

/// The JSON array of plain strings.
pub open spec fn spec_str_array(items: Seq<&str>) -> Seq<char>
    decreases items.len(),
{
    if items.len() == 0 {
        "[]"@
    } else if items.len() == 1 {
        "["@ + spec_json_string(items[0]@) + "]"@
    } else {
        spec_str_array(items.drop_last()).drop_last() + ","@ + spec_json_string(
            items.last()@,
        ) + "]"@
    }
}

/// Renders a list of strings as a JSON array.
pub fn str_array(items: &Vec<&str>) -> (r: String)
    ensures
        r@ == spec_str_array(items@),
{
    proof {
        reveal_strlit("[]");
        reveal_strlit("[");
        reveal_strlit("]");
        reveal_strlit(",");
    }
    if items.len() == 0 {
        return String::from_str("[]");
    }
    let mut body = String::from_str("[");
    let mut i: usize = 0;
    while i < items.len()
        invariant
            0 < items@.len(),
            0 <= i <= items@.len(),
            i == 0 ==> body@ == "["@,
            i > 0 ==> body@ + "]"@ == spec_str_array(items@.take(i as int)),
        decreases items@.len() - i,
    {
        proof {
            reveal_strlit("[");
            reveal_strlit("]");
            reveal_strlit(",");
        }
        let ghost b0 = body@;
        if i > 0 {
            body = body.concat(",");
        }
        let entry = json_string(items[i]);
        body = body.concat(entry.as_str());
        proof {
            let upto = items@.take(i + 1);
            assert(upto.drop_last() =~= items@.take(i as int));
            assert(upto.last() == items@[i as int]);
            if i == 0 {
                assert(body@ + "]"@ =~= spec_str_array(upto));
            } else {
                assert(spec_str_array(upto) == spec_str_array(items@.take(i as int)).drop_last()
                    + ","@ + spec_json_string(items@[i as int]@) + "]"@);
                assert(spec_str_array(items@.take(i as int)).drop_last() =~= b0);
                assert(body@ + "]"@ =~= spec_str_array(upto));
            }
        }
        i = i + 1;
    }
    let r = body.concat("]");
    proof {
        assert(items@.take(items@.len() as int) =~= items@);
        assert(r@ =~= spec_str_array(items@));
    }
    r
}

/// One property's JSON entry: its name as the key, then its type, its
/// description when it has one, and its allowed values when it lists any.
pub open spec fn spec_prop_entry(p: Property) -> Seq<char> {
    spec_json_string(p.variable_name@) + ":{\"type\":"@ + spec_json_string(p.variable_type@) + (
    if p.variable_description@.len() == 0 {
        Seq::<char>::empty()
    } else {
        ",\"description\":"@ + spec_json_string(p.variable_description@)
    }) + (if p.enum_values@.len() == 0 {
        Seq::<char>::empty()
    } else {
        ",\"enum\":"@ + spec_str_array(p.enum_values@)
    }) + "}"@
}

/// Renders one property's JSON entry.
fn prop_entry(p: &Property) -> (r: String)
    ensures
        r@ == spec_prop_entry(*p),
{
    proof {
        reveal_strlit(":{\"type\":");
        reveal_strlit(",\"description\":");
        reveal_strlit(",\"enum\":");
        reveal_strlit("}");
    }
    let mut out = json_string(p.variable_name).concat(":{\"type\":").concat(
        json_string(p.variable_type).as_str(),
    );
    if !p.variable_description.is_empty() {
        out = out.concat(",\"description\":").concat(
            json_string(p.variable_description).as_str(),
        );
    }
    if p.enum_values.len() > 0 {
        out = out.concat(",\"enum\":").concat(str_array(&p.enum_values).as_str());
    }
    let r = out.concat("}");
    proof {
        assert(r@ =~= spec_prop_entry(*p));
    }
    r
}

/// The JSON object holding every property, in order.
pub open spec fn spec_props_json(props: Seq<Property>) -> Seq<char>
    decreases props.len(),
{
    if props.len() == 0 {
        "{}"@
    } else if props.len() == 1 {
        "{"@ + spec_prop_entry(props[0]) + "}"@
    } else {
        spec_props_json(props.drop_last()).drop_last() + ","@ + spec_prop_entry(props.last())
            + "}"@
    }
}

/// Renders the property collection as a JSON object.
pub fn props_json(properties: &Properties) -> (r: String)
    ensures
        r@ == spec_props_json(properties.props@),
{
    proof {
        reveal_strlit("{}");
        reveal_strlit("{");
        reveal_strlit("}");
        reveal_strlit(",");
    }
    let props = &properties.props;
    if props.len() == 0 {
        return String::from_str("{}");
    }
    let mut body = String::from_str("{");
    let mut i: usize = 0;
    while i < props.len()
        invariant
            0 < props@.len(),
            0 <= i <= props@.len(),
            i == 0 ==> body@ == "{"@,
            i > 0 ==> body@ + "}"@ == spec_props_json(props@.take(i as int)),
        decreases props@.len() - i,
    {
        proof {
            reveal_strlit("{");
            reveal_strlit("}");
            reveal_strlit(",");
        }
        let ghost b0 = body@;
        if i > 0 {
            body = body.concat(",");
        }
        let entry = prop_entry(&props[i]);
        body = body.concat(entry.as_str());
        proof {
            let upto = props@.take(i + 1);
            assert(upto.drop_last() =~= props@.take(i as int));
            assert(upto.last() == props@[i as int]);
            if i == 0 {
                assert(body@ + "}"@ =~= spec_props_json(upto));
            } else {
                assert(spec_props_json(upto) == spec_props_json(props@.take(i as int))
                    .drop_last() + ","@ + spec_prop_entry(props@[i as int]) + "}"@);
                assert(spec_props_json(props@.take(i as int)).drop_last() =~= b0);
                assert(body@ + "}"@ =~= spec_props_json(upto));
            }
        }
        i = i + 1;
    }
    let r = body.concat("}");
    proof {
        assert(props@.take(props@.len() as int) =~= props@);
        assert(r@ =~= spec_props_json(props@));
    }
    r
}

/// The parameter block's JSON object.
pub open spec fn spec_parameters_json(p: Parameters) -> Seq<char> {
    "{\"type\":"@ + spec_json_string(p.param_type@) + ",\"properties\":"@ + spec_props_json(
        p.properties.props@,
    ) + ",\"required\":"@ + spec_str_array(p.required@) + "}"@
}

/// Renders the parameter block.
pub fn parameters_json(p: &Parameters) -> (r: String)
    ensures
        r@ == spec_parameters_json(*p),
{
    proof {
        reveal_strlit("{\"type\":");
        reveal_strlit(",\"properties\":");
        reveal_strlit(",\"required\":");
        reveal_strlit("}");
    }
    let r = String::from_str("{\"type\":").concat(json_string(p.param_type).as_str()).concat(
        ",\"properties\":",
    ).concat(props_json(&p.properties).as_str()).concat(",\"required\":").concat(
        str_array(&p.required).as_str(),
    ).concat("}");
    proof {
        assert(r@ =~= spec_parameters_json(*p));
    }
    r
}

/// The function description's JSON object.
pub open spec fn spec_functions_json(f: Functions) -> Seq<char> {
    "{\"name\":"@ + spec_json_string(f.name@) + ",\"description\":"@ + spec_json_string(
        f.description@,
    ) + ",\"parameters\":"@ + spec_parameters_json(f.parameters) + "}"@
}

/// Renders the function description.
pub fn functions_json(f: &Functions) -> (r: String)
    ensures
        r@ == spec_functions_json(*f),
{
    proof {
        reveal_strlit("{\"name\":");
        reveal_strlit(",\"description\":");
        reveal_strlit(",\"parameters\":");
        reveal_strlit("}");
    }
    let r = String::from_str("{\"name\":").concat(json_string(f.name).as_str()).concat(
        ",\"description\":",
    ).concat(json_string(f.description).as_str()).concat(",\"parameters\":").concat(
        parameters_json(&f.parameters).as_str(),
    ).concat("}");
    proof {
        assert(r@ =~= spec_functions_json(*f));
    }
    r
}

/// The whole tool description's JSON object.
pub open spec fn spec_tool_json(t: OpenAITools) -> Seq<char> {
    "{\"type\":"@ + spec_json_string(t.tool_type@) + ",\"function\":"@ + spec_functions_json(
        t.function,
    ) + "}"@
}

} // verus!
