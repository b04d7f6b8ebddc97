use vstd::prelude::*;

verus! {

/// The upper camel case form of a name.
pub uninterp spec fn upper_camel_of(s: Seq<char>) -> Seq<char>;

/// Relies on heck's `ToUpperCamelCase`: the result depends on the characters alone.
#[verifier::external_body]
fn upper_camel(s: &str) -> (r: String)
    ensures
        r@ == upper_camel_of(s@),
{
    heck::ToUpperCamelCase::to_upper_camel_case(s)
}

/// A character that may start an identifier.
pub open spec fn ident_start(c: char) -> bool {
    ('a' <= c && c <= 'z') || ('A' <= c && c <= 'Z') || c == '_'
}

/// A character that may continue an identifier.
pub open spec fn ident_continue(c: char) -> bool {
    ident_start(c) || ('0' <= c && c <= '9')
}

/// An ASCII identifier other than a lone underscore.
pub open spec fn is_identifier(s: Seq<char>) -> bool {
    &&& s.len() >= 1
    &&& ident_start(s[0])
    &&& forall|i: int| 1 <= i < s.len() ==> ident_continue(#[trigger] s[i])
    &&& s != seq!['_']
}

/// Whether a name is an identifier that generated code can use.
pub fn check_identifier(s: &str) -> (r: bool)
    ensures
        r == is_identifier(s@),
{
    let n = s.unicode_len();
    if n == 0 {
        return false;
    }
    let first = s.get_char(0);
    if !(('a' <= first && first <= 'z') || ('A' <= first && first <= 'Z') || first == '_') {
        return false;
    }
    if n == 1 && first == '_' {
        proof {
            assert(s@ =~= seq!['_']);
        }
        return false;
    }
    let mut i: usize = 1;
    while i < n
        invariant
            1 <= i <= n,
            n == s@.len(),
            forall|j: int| 1 <= j < i ==> ident_continue(#[trigger] s@[j]),
        decreases n - i,
    {
        let c = s.get_char(i);
        if !(('a' <= c && c <= 'z') || ('A' <= c && c <= 'Z') || c == '_' || ('0' <= c && c <= '9')) {
            return false;
        }
        i = i + 1;
    }
    proof {
        if n == 1 {
            assert(s@ != seq!['_']) by {
                if s@ == seq!['_'] {
                    assert(s@[0] == '_');
                }
            }
        } else {
            assert(s@.len() != 1);
        }
    }
    true
}

/// The module declarations of the generated dispatcher.
pub open spec fn mod_lines(files: Seq<Seq<char>>) -> Seq<char>
    decreases files.len(),
{
    if files.len() == 0 {
        Seq::empty()
    } else {
        mod_lines(files.drop_last()) + "pub mod "@ + files.last() + ";\n"@
    }
}

/// The variants of the generated event union: one per contract, wrapping its events.
pub open spec fn variant_lines(files: Seq<Seq<char>>) -> Seq<char>
    decreases files.len(),
{
    if files.len() == 0 {
        Seq::empty()
    } else {
        variant_lines(files.drop_last()) + "    "@ + upper_camel_of(files.last()) + "("@ + files.last()
            + "::events::Events),\n"@
    }
}

/// The attempts of the generated dispatcher: each contract's decoder, in order.
pub open spec fn dispatch_lines(files: Seq<Seq<char>>) -> Seq<char>
    decreases files.len(),
{
    if files.len() == 0 {
        Seq::empty()
    } else {
        dispatch_lines(files.drop_last()) + "        if let Some(event) = "@ + files.last()
            + "::events::Events::match_and_decode(log) {\n            return Some(Events::"@
            + upper_camel_of(files.last()) + "(event));\n        }\n"@
    }
}

/// The source of the dispatcher generated for contracts with these module names.
pub open spec fn dispatcher_source(files: Seq<Seq<char>>) -> Seq<char> {
    "use to_table_derive::ToTableChange;\n\n"@ + mod_lines(files)
        + "\n#[derive(ToTableChange)]\npub enum Events {\n"@ + variant_lines(files)
        + "}\n\nimpl Events {\n    pub fn match_and_decode(log: &substreams_ethereum::pb::eth::v2::Log) -> Option<Events> {\n"@
        + dispatch_lines(files) + "        return None;\n    }\n}\n"@
}

/// Every name, and its upper camel case form, is an identifier.
pub open spec fn names_usable(files: Seq<Seq<char>>) -> bool {
    forall|i: int|
        0 <= i < files.len() ==> is_identifier(#[trigger] files[i]) && is_identifier(upper_camel_of(files[i]))
}

/// The views of a sequence of strings.
pub open spec fn string_views(ss: Seq<String>) -> Seq<Seq<char>> {
    ss.map_values(|s: String| s@)
}

/// Why code could not be generated.
#[derive(Clone, Copy, Debug, PartialEq, Eq)]
pub enum CodegenError {
    /// A contract name, or its upper camel case form, is not an identifier.
    InvalidName,
}

/// Generates the dispatcher that tries each registered contract's decoder on a log.
pub struct CodeGeneration {
    abi_files: Vec<String>,
}

/// Generated source code.
pub struct GeneratedBindings {
    code: String,
}

impl GeneratedBindings {
    pub closed spec fn view(&self) -> Seq<char> {
        self.code@
    }

    /// The generated source.
    pub fn code(&self) -> (r: &String)
        ensures
            r@ == self.view(),
    {
        &self.code
    }
}

/// Appends `b` to `a`.
fn append_text(a: &mut String, b: &str)
    ensures
        final(a)@ == old(a)@ + b@,
{
    a.append(b);
}

impl CodeGeneration {
    pub closed spec fn files(&self) -> Seq<Seq<char>> {
        string_views(self.abi_files@)
    }

    /// A generator for contracts with these module names, in registration order.
    pub fn new(abi_files: Vec<String>) -> (r: Self)
        ensures
            r.files() == string_views(abi_files@),
    {
        Self { abi_files }
    }

    /// The dispatcher source: a module per contract, an event union with one variant per
    /// contract, and a decoder that tries the contracts in order and returns the first
    /// match.
    ///
    /// Fails exactly when a name, or its upper camel case form, is not an identifier.
    pub fn generate_code(&self) -> (r: Result<GeneratedBindings, CodegenError>)
        ensures
            r is Ok <==> names_usable(self.files()),
            r matches Ok(b) ==> b.view() == dispatcher_source(self.files()),
    {
        let files = &self.abi_files;
        let ghost fv = string_views(files@);
        assert(self.files() == fv);
        let mut camels: Vec<String> = Vec::new();
        let mut i: usize = 0;
        while i < files.len()
            invariant
                i <= files.len(),
                fv == string_views(files@),
                fv == self.files(),
                camels@.len() == i,
                forall|j: int| 0 <= j < i ==> #[trigger] camels@[j]@ == upper_camel_of(fv[j]),
                forall|j: int| 0 <= j < i ==> is_identifier(#[trigger] fv[j]) && is_identifier(upper_camel_of(fv[j])),
            decreases files.len() - i,
        {
            let camel = upper_camel(files[i].as_str());
            if !check_identifier(files[i].as_str()) || !check_identifier(camel.as_str()) {
                proof {
                    assert(fv[i as int] == files@[i as int]@);
                    assert(!(is_identifier(fv[i as int]) && is_identifier(upper_camel_of(fv[i as int]))));
                    assert(!names_usable(fv));
                }
                return Err(CodegenError::InvalidName);
            }
            camels.push(camel);
            i = i + 1;
        }
        let mut code = String::from_str("use to_table_derive::ToTableChange;\n\n");
        let ghost head = code@;
        let mut i: usize = 0;
        while i < files.len()
            invariant
                i <= files.len(),
                fv == string_views(files@),
                code@ == head + mod_lines(fv.subrange(0, i as int)),
            decreases files.len() - i,
        {
            append_text(&mut code, "pub mod ");
            append_text(&mut code, files[i].as_str());
            append_text(&mut code, ";\n");
            proof {
                assert(fv.subrange(0, i + 1).drop_last() =~= fv.subrange(0, i as int));
                assert(code@ =~= head + mod_lines(fv.subrange(0, i + 1)));
            }
            i = i + 1;
        }
        append_text(&mut code, "\n#[derive(ToTableChange)]\npub enum Events {\n");
        let ghost head = code@;
        let mut i: usize = 0;
        while i < files.len()
            invariant
                i <= files.len(),
                fv == string_views(files@),
                camels@.len() == files@.len(),
                forall|j: int| 0 <= j < files@.len() ==> #[trigger] camels@[j]@ == upper_camel_of(fv[j]),
                code@ == head + variant_lines(fv.subrange(0, i as int)),
            decreases files.len() - i,
        {
            append_text(&mut code, "    ");
            append_text(&mut code, camels[i].as_str());
            append_text(&mut code, "(");
            append_text(&mut code, files[i].as_str());
            append_text(&mut code, "::events::Events),\n");
            proof {
                assert(fv.subrange(0, i + 1).drop_last() =~= fv.subrange(0, i as int));
                assert(code@ =~= head + variant_lines(fv.subrange(0, i + 1)));
            }
            i = i + 1;
        }
        append_text(
            &mut code,
            "}\n\nimpl Events {\n    pub fn match_and_decode(log: &substreams_ethereum::pb::eth::v2::Log) -> Option<Events> {\n",
        );
        let ghost head = code@;
        let mut i: usize = 0;
        while i < files.len()
            invariant
                i <= files.len(),
                fv == string_views(files@),
                camels@.len() == files@.len(),
                forall|j: int| 0 <= j < files@.len() ==> #[trigger] camels@[j]@ == upper_camel_of(fv[j]),
                code@ == head + dispatch_lines(fv.subrange(0, i as int)),
            decreases files.len() - i,
        {
            append_text(&mut code, "        if let Some(event) = ");
            append_text(&mut code, files[i].as_str());
            append_text(&mut code, "::events::Events::match_and_decode(log) {\n            return Some(Events::");
            append_text(&mut code, camels[i].as_str());
            append_text(&mut code, "(event));\n        }\n");
            proof {
                assert(fv.subrange(0, i + 1).drop_last() =~= fv.subrange(0, i as int));
                assert(code@ =~= head + dispatch_lines(fv.subrange(0, i + 1)));
            }
            i = i + 1;
        }
        append_text(&mut code, "        return None;\n    }\n}\n");
        proof {
            assert(fv.subrange(0, files.len() as int) =~= fv);
            assert(code@ =~= dispatcher_source(fv));
        }
        Ok(GeneratedBindings { code })
    }
}

/// A text with every occurrence of `from` replaced by `to`.
pub uninterp spec fn replaced(s: Seq<char>, from: Seq<char>, to: Seq<char>) -> Seq<char>;

/// Relies on `str::replace`: every non-overlapping occurrence of the pattern, from the left,
/// replaced; the result depends on the three texts alone.
#[verifier::external_body]
fn replace_all(s: &str, from: &str, to: &str) -> (r: String)
    ensures
        r@ == replaced(s@, from@, to@),
{
    s.replace(from, to)
}

/// The deployment manifest: the template with its name, version and network placeholders
/// filled in, in that order.
pub fn render_manifest(template: &str, name: &str, version: &str, network: &str) -> (r: String)
    ensures
        r@ == replaced(
            replaced(replaced(template@, "{{NAME}}"@, name@), "{{VERSION}}"@, version@),
            "{{NETWORK}}"@,
            network@,
        ),
{
    let a = replace_all(template, "{{NAME}}", name);
    let b = replace_all(a.as_str(), "{{VERSION}}", version);
    replace_all(b.as_str(), "{{NETWORK}}", network)
}

/// Generating twice from the same configuration gives identical artifacts: the dispatcher
/// source depends on the contract names alone, and the schema on the database name and the
/// registered definitions alone.
pub proof fn lemma_generation_deterministic(
    files1: Seq<Seq<char>>,
    files2: Seq<Seq<char>>,
    db1: Seq<char>,
    db2: Seq<char>,
    reg1: crate::registry::Registry,
    reg2: crate::registry::Registry,
)
    requires
        files1 == files2,
        db1 == db2,
        reg1 == reg2,
    ensures
        dispatcher_source(files1) == dispatcher_source(files2),
        crate::schema::schema_text(db1, reg1) == crate::schema::schema_text(db2, reg2),
{
}

} // verus!
