//! The decisions behind the `#[command(...)]` attribute: reading its
//! `key = "value"` arguments into a [`CommandMetadata`], checking the
//! annotated function's parameters, and naming the generated command type.
//!
//! The token handling itself (reading the attribute and the function, and
//! writing out the generated code) is done by the macro front end, which hands
//! these functions plain values.

use vstd::prelude::*;
use vstd::string::StringExecFns;
use crate::error::CommandError;
use crate::metadata::{CommandMetadata, MetadataView};
use crate::text::{chars_of, char_to_uppercase, push_char, uppercase_of};

verus! {

/// `s` with its first character replaced by `replacement` (empty if `s` is empty).
pub open spec fn replace_first(s: Seq<char>, replacement: Seq<char>) -> Seq<char> {
    if s.len() == 0 {
        Seq::<char>::empty()
    } else {
        replacement + s.drop_first()
    }
}

/// `s` with its first character replaced by `replacement`; the empty string
/// stays empty.
pub fn replace_first_char(s: &str, replacement: &str) -> (r: String)
    ensures
        r@ == replace_first(s@, replacement@),
{
    let cs = chars_of(s);
    let mut r = String::new();
    if cs.len() == 0 {
        return r;
    }
    r.append(replacement);
    let mut i: usize = 1;
    while i < cs.len()
        invariant
            1 <= i <= cs@.len(),
            cs@ == s@,
            r@ == replacement@ + s@.subrange(1, i as int),
        decreases cs@.len() - i,
    {
        push_char(&mut r, cs[i]);
        i = i + 1;
        assert(r@ =~= replacement@ + s@.subrange(1, i as int));
    }
    assert(s@.subrange(1, s@.len() as int) =~= s@.drop_first());
    r
}

/// `s` with its first character in upper case.
pub open spec fn capitalized(s: Seq<char>) -> Seq<char> {
    if s.len() == 0 {
        Seq::<char>::empty()
    } else {
        replace_first(s, uppercase_of(s[0]))
    }
}

/// Capitalizes the first character of a string.
pub fn capitalize_first(s: &str) -> (r: String)
    ensures
        r@ == capitalized(s@),
{
    let cs = chars_of(s);
    if cs.len() == 0 {
        return String::new();
    }
    let upper = char_to_uppercase(cs[0]);
    replace_first_char(s, upper.as_str())
}

/// The name of the type generated for a command function: the function's name
/// capitalized, followed by `Command`.
pub open spec fn generated_struct_name(fn_name: Seq<char>) -> Seq<char> {
    capitalized(fn_name) + "Command"@
}

/// Returns the name of the type generated for the command function `fn_name`.
pub fn command_struct_name(fn_name: &str) -> (r: String)
    ensures
        r@ == generated_struct_name(fn_name@),
{
    let mut r = capitalize_first(fn_name);
    r.append("Command");
    r
}

/// Replacing the first character of a non-empty string keeps all the rest:
/// the result starts with the replacement, continues with every character of
/// `s` after its first, in order, and is no longer than those two together.
pub proof fn lemma_replace_first_keeps_rest(s: Seq<char>, replacement: Seq<char>)
    requires
        s.len() > 0,
    ensures
        replace_first(s, replacement).len() == replacement.len() + s.len() - 1,
        replace_first(s, replacement).subrange(0, replacement.len() as int) == replacement,
        forall|i: int| 1 <= i < s.len() ==> #[trigger] replace_first(s, replacement)[replacement.len() + i - 1] == s[i],
{
    let r = replace_first(s, replacement);
    assert(r.subrange(0, replacement.len() as int) =~= replacement);
}

/// The type generated for a command function is named after the whole
/// function name, whatever its length: the upper-case form of its first
/// character, then every later character of the name, then `Command`.
pub proof fn lemma_struct_name_keeps_fn_name(f: Seq<char>)
    requires
        f.len() > 0,
    ensures
        generated_struct_name(f).len() == uppercase_of(f[0]).len() + f.len() - 1 + 7,
        generated_struct_name(f).subrange(0, uppercase_of(f[0]).len() as int) == uppercase_of(f[0]),
        forall|i: int| 1 <= i < f.len() ==> #[trigger] generated_struct_name(f)[uppercase_of(f[0]).len() + i - 1] == f[i],
        generated_struct_name(f).subrange(generated_struct_name(f).len() - 7, generated_struct_name(f).len() as int) == "Command"@,
{
    reveal_strlit("Command");
    let u = uppercase_of(f[0]);
    let c = capitalized(f);
    lemma_replace_first_keeps_rest(f, u);
    let n = generated_struct_name(f);
    assert(n == c + "Command"@);
    assert(n.subrange(0, u.len() as int) =~= c.subrange(0, u.len() as int));
    assert forall|i: int| 1 <= i < f.len() implies #[trigger] n[u.len() + i - 1] == f[i] by {
        assert(c[u.len() + i - 1] == f[i]);
    }
    assert(n.subrange(n.len() - 7, n.len() as int) =~= "Command"@);
}

/// Checks that a command expecting `expected` arguments received `got`.
pub fn check_argument_count(expected: usize, got: usize) -> (r: Result<(), CommandError>)
    ensures
        expected == got ==> r is Ok,
        expected != got ==> (r matches Err(CommandError::ArgumentCountMismatch { expected: e, got: g })
            && e == expected && g == got),
{
    if expected != got {
        Err(CommandError::ArgumentCountMismatch { expected, got })
    } else {
        Ok(())
    }
}

/// One argument of the `#[command(...)]` attribute, as the macro front end
/// reads it.
pub enum AttributeArg {
    /// A `key = value` pair: the key when it is a single identifier, and the
    /// value when it is a string literal.
    NameValue { key: Option<String>, value: Option<String> },
    /// Any other form of argument (a bare path or a list).
    Other,
}

/// Why the arguments of the `#[command(...)]` attribute were refused. The
/// `index` is the position of the offending argument.
#[derive(Debug)]
pub enum AttributeError {
    /// The argument is not a `key = value` pair.
    ExpectedNameValue { index: usize },
    /// The key is not a single identifier.
    ExpectedIdentifier { index: usize },
    /// The value is not a string literal.
    ExpectedStringLiteral { index: usize },
    /// The key is none of `name`, `syntax`, `short`, `docs`.
    UnknownAttribute { index: usize },
    /// No `name` was given.
    MissingName,
    /// No `syntax` was given.
    MissingSyntax,
    /// No `short` was given.
    MissingShort,
    /// No `docs` was given.
    MissingDocs,
}

impl AttributeError {
    /// The message the macro reports for this error.
    pub open spec fn message_spec(&self) -> Seq<char> {
        match self {
            AttributeError::ExpectedNameValue { .. } => "Expected name-value pair"@,
            AttributeError::ExpectedIdentifier { .. } => "Expected identifier"@,
            AttributeError::ExpectedStringLiteral { .. } => "Expected string literal"@,
            AttributeError::UnknownAttribute { .. } => "Unknown attribute"@,
            AttributeError::MissingName => "Missing 'name' attribute"@,
            AttributeError::MissingSyntax => "Missing 'syntax' attribute"@,
            AttributeError::MissingShort => "Missing 'short' attribute"@,
            AttributeError::MissingDocs => "Missing 'docs' attribute"@,
        }
    }

    /// Returns the message the macro reports for this error.
    pub fn message(&self) -> (r: String)
        ensures
            r@ == self.message_spec(),
    {
        match self {
            AttributeError::ExpectedNameValue { .. } => String::from_str("Expected name-value pair"),
            AttributeError::ExpectedIdentifier { .. } => String::from_str("Expected identifier"),
            AttributeError::ExpectedStringLiteral { .. } => String::from_str("Expected string literal"),
            AttributeError::UnknownAttribute { .. } => String::from_str("Unknown attribute"),
            AttributeError::MissingName => String::from_str("Missing 'name' attribute"),
            AttributeError::MissingSyntax => String::from_str("Missing 'syntax' attribute"),
            AttributeError::MissingShort => String::from_str("Missing 'short' attribute"),
            AttributeError::MissingDocs => String::from_str("Missing 'docs' attribute"),
        }
    }
}

/// The four attribute values gathered so far.
pub struct Gathered {
    pub name: Option<Seq<char>>,
    pub syntax: Option<Seq<char>>,
    pub short: Option<Seq<char>>,
    pub docs: Option<Seq<char>>,
}

/// Gathers the values of `args[i..]` into `acc`; a later value for a key
/// replaces an earlier one. The first malformed argument stops the reading.
pub open spec fn gather_from(args: Seq<AttributeArg>, i: int, acc: Gathered) -> Result<Gathered, AttributeError>
    decreases args.len() - i,
{
    if i < 0 || i >= args.len() {
        Ok(acc)
    } else {
        match args[i] {
            AttributeArg::Other => Err(AttributeError::ExpectedNameValue { index: i as usize }),
            AttributeArg::NameValue { key, value } => match key {
                None => Err(AttributeError::ExpectedIdentifier { index: i as usize }),
                Some(k) => match value {
                    None => Err(AttributeError::ExpectedStringLiteral { index: i as usize }),
                    Some(v) => if k@ == "name"@ {
                        gather_from(args, i + 1, Gathered { name: Some(v@), ..acc })
                    } else if k@ == "syntax"@ {
                        gather_from(args, i + 1, Gathered { syntax: Some(v@), ..acc })
                    } else if k@ == "short"@ {
                        gather_from(args, i + 1, Gathered { short: Some(v@), ..acc })
                    } else if k@ == "docs"@ {
                        gather_from(args, i + 1, Gathered { docs: Some(v@), ..acc })
                    } else {
                        Err(AttributeError::UnknownAttribute { index: i as usize })
                    },
                },
            },
        }
    }
}

/// What the attribute arguments `args` give: the command's metadata, or the
/// first error.
pub open spec fn metadata_of(args: Seq<AttributeArg>) -> Result<MetadataView, AttributeError> {
    match gather_from(args, 0, Gathered { name: None, syntax: None, short: None, docs: None }) {
        Err(e) => Err(e),
        Ok(g) => match (g.name, g.syntax, g.short, g.docs) {
            (None, _, _, _) => Err(AttributeError::MissingName),
            (Some(_), None, _, _) => Err(AttributeError::MissingSyntax),
            (Some(_), Some(_), None, _) => Err(AttributeError::MissingShort),
            (Some(_), Some(_), Some(_), None) => Err(AttributeError::MissingDocs),
            (Some(name), Some(syntax), Some(short), Some(docs)) => Ok(
                MetadataView { name, syntax, short, docs },
            ),
        },
    }
}

/// The key of a well-formed `key = "value"` argument.
pub open spec fn arg_key(a: AttributeArg) -> Option<Seq<char>> {
    match a {
        AttributeArg::NameValue { key: Some(k), value: Some(_) } => Some(k@),
        _ => None,
    }
}

/// The value of a `key = "value"` argument.
pub open spec fn arg_value(a: AttributeArg) -> Seq<char> {
    match a {
        AttributeArg::NameValue { value: Some(v), .. } => v@,
        _ => Seq::<char>::empty(),
    }
}

/// One of the four keys that `#[command(...)]` knows.
pub open spec fn is_known_key(k: Seq<char>) -> bool {
    k == "name"@ || k == "syntax"@ || k == "short"@ || k == "docs"@
}

/// A `key = "value"` argument whose key is known.
pub open spec fn is_well_formed_arg(a: AttributeArg) -> bool {
    arg_key(a) matches Some(k) && is_known_key(k)
}

/// The value of the last argument among `args[..i]` with key `key`.
pub open spec fn last_value(args: Seq<AttributeArg>, key: Seq<char>, i: int) -> Option<Seq<char>>
    decreases i,
{
    if i <= 0 || i > args.len() {
        None
    } else if arg_key(args[i - 1]) == Some(key) {
        Some(arg_value(args[i - 1]))
    } else {
        last_value(args, key, i - 1)
    }
}

proof fn lemma_gather_last_values(args: Seq<AttributeArg>, i: int)
    requires
        0 <= i <= args.len(),
        forall|j: int| 0 <= j < args.len() ==> is_well_formed_arg(#[trigger] args[j]),
    ensures
        gather_from(args, i, Gathered {
            name: last_value(args, "name"@, i),
            syntax: last_value(args, "syntax"@, i),
            short: last_value(args, "short"@, i),
            docs: last_value(args, "docs"@, i),
        }) == Ok::<Gathered, AttributeError>(Gathered {
            name: last_value(args, "name"@, args.len() as int),
            syntax: last_value(args, "syntax"@, args.len() as int),
            short: last_value(args, "short"@, args.len() as int),
            docs: last_value(args, "docs"@, args.len() as int),
        }),
    decreases args.len() - i,
{
    if i < args.len() {
        reveal_strlit("name");
        reveal_strlit("syntax");
        reveal_strlit("short");
        reveal_strlit("docs");
        assert(is_well_formed_arg(args[i]));
        let k = arg_key(args[i])->0;
        assert("name"@.len() == 4 && "syntax"@.len() == 6 && "short"@.len() == 5 && "docs"@.len() == 4);
        assert("name"@[0] == 'n' && "docs"@[0] == 'd');
        assert("name"@ != "syntax"@ && "name"@ != "short"@ && "name"@ != "docs"@);
        assert("syntax"@ != "short"@ && "syntax"@ != "docs"@ && "short"@ != "docs"@);
        lemma_gather_last_values(args, i + 1);
    }
}

/// When every argument is a `key = "value"` pair with a known key, reading
/// the arguments succeeds exactly when all four keys are given, and each
/// field takes the value of the last argument with its key.
pub proof fn lemma_attributes_last_value_wins(args: Seq<AttributeArg>)
    requires
        forall|j: int| 0 <= j < args.len() ==> is_well_formed_arg(#[trigger] args[j]),
    ensures
        ({
            let n = args.len() as int;
            match (last_value(args, "name"@, n), last_value(args, "syntax"@, n),
                last_value(args, "short"@, n), last_value(args, "docs"@, n)) {
                (Some(name), Some(syntax), Some(short), Some(docs)) => metadata_of(args)
                    == Ok::<MetadataView, AttributeError>(MetadataView { name, syntax, short, docs }),
                _ => metadata_of(args) is Err,
            }
        }),
{
    lemma_gather_last_values(args, 0);
    assert(last_value(args, "name"@, 0) == None::<Seq<char>>);
}

fn is_key(k: &String, word: &str) -> (b: bool)
    ensures
        b == (k@ == word@),
{
    *k == String::from_str(word)
}

fn clone_opt(o: &Option<String>) -> (r: Option<String>)
    ensures
        match o {
            Some(s) => r matches Some(t) && t@ == s@,
            None => r is None,
        },
{
    match o {
        Some(s) => Some(s.clone()),
        None => None,
    }
}

spec fn view_opt(o: Option<String>) -> Option<Seq<char>> {
    match o {
        Some(s) => Some(s@),
        None => None,
    }
}

/// Reads the arguments of the `#[command(...)]` attribute into the command's
/// metadata. Each argument must be `key = "value"` with `key` one of `name`,
/// `syntax`, `short` and `docs`; all four must be given.
pub fn parse_attributes(args: &Vec<AttributeArg>) -> (r: Result<CommandMetadata, AttributeError>)
    ensures
        match metadata_of(args@) {
            Ok(m) => r matches Ok(md) && md@ == m,
            Err(e) => r matches Err(re) && re == e,
        },
{
    let mut name: Option<String> = None;
    let mut syntax: Option<String> = None;
    let mut short: Option<String> = None;
    let mut docs: Option<String> = None;
    let mut i: usize = 0;
    while i < args.len()
        invariant
            i <= args@.len(),
            gather_from(args@, i as int, Gathered {
                name: view_opt(name), syntax: view_opt(syntax), short: view_opt(short), docs: view_opt(docs),
            }) == gather_from(args@, 0, Gathered { name: None, syntax: None, short: None, docs: None }),
        decreases args@.len() - i,
    {
        match &args[i] {
            AttributeArg::Other => {
                return Err(AttributeError::ExpectedNameValue { index: i });
            },
            AttributeArg::NameValue { key, value } => {
                let k = match key {
                    Some(k) => k,
                    None => {
                        return Err(AttributeError::ExpectedIdentifier { index: i });
                    },
                };
                let v = match clone_opt(value) {
                    Some(v) => v,
                    None => {
                        return Err(AttributeError::ExpectedStringLiteral { index: i });
                    },
                };
                if is_key(k, "name") {
                    name = Some(v);
                } else if is_key(k, "syntax") {
                    syntax = Some(v);
                } else if is_key(k, "short") {
                    short = Some(v);
                } else if is_key(k, "docs") {
                    docs = Some(v);
                } else {
                    return Err(AttributeError::UnknownAttribute { index: i });
                }
            },
        }
        i = i + 1;
    }
    match (name, syntax, short, docs) {
        (None, _, _, _) => Err(AttributeError::MissingName),
        (Some(_), None, _, _) => Err(AttributeError::MissingSyntax),
        (Some(_), Some(_), None, _) => Err(AttributeError::MissingShort),
        (Some(_), Some(_), Some(_), None) => Err(AttributeError::MissingDocs),
        (Some(name), Some(syntax), Some(short), Some(docs)) => Ok(
            CommandMetadata::from_strings(name, syntax, short, docs),
        ),
    }
}

/// A parameter of the function that `#[command(...)]` annotates, as the macro
/// front end reads it.
pub enum Param {
    /// A typed parameter whose pattern is a plain identifier: that identifier
    /// and the parameter's type as written.
    Named { name: String, ty: String },
    /// A typed parameter with any other pattern.
    Pattern,
    /// A receiver (`self`, `&self`, ...).
    Receiver,
}

/// Why a parameter of the annotated function was refused. The `index` is the
/// position of the parameter.
#[derive(Debug)]
pub enum ParamError {
    /// The parameter's pattern is not a plain identifier.
    ExpectedIdentifierPattern { index: usize },
    /// The parameter is a receiver.
    ExpectedTypedParameter { index: usize },
}

impl ParamError {
    /// The message the macro reports for this error.
    pub open spec fn message_spec(&self) -> Seq<char> {
        match self {
            ParamError::ExpectedIdentifierPattern { .. } => "Expected simple identifier pattern"@,
            ParamError::ExpectedTypedParameter { .. } => "Expected typed parameter"@,
        }
    }

    /// Returns the message the macro reports for this error.
    pub fn message(&self) -> (r: String)
        ensures
            r@ == self.message_spec(),
    {
        match self {
            ParamError::ExpectedIdentifierPattern { .. } => String::from_str("Expected simple identifier pattern"),
            ParamError::ExpectedTypedParameter { .. } => String::from_str("Expected typed parameter"),
        }
    }
}

/// The first refused parameter at or after position `i`, if any.
pub open spec fn param_error_from(params: Seq<Param>, i: int) -> Option<ParamError>
    decreases params.len() - i,
{
    if i < 0 || i >= params.len() {
        None
    } else {
        match params[i] {
            Param::Named { .. } => param_error_from(params, i + 1),
            Param::Pattern => Some(ParamError::ExpectedIdentifierPattern { index: i as usize }),
            Param::Receiver => Some(ParamError::ExpectedTypedParameter { index: i as usize }),
        }
    }
}

/// The name of a named parameter.
pub open spec fn param_name(p: Param) -> Seq<char> {
    match p {
        Param::Named { name, .. } => name@,
        _ => Seq::<char>::empty(),
    }
}

/// The type, as written, of a named parameter.
pub open spec fn param_type(p: Param) -> Seq<char> {
    match p {
        Param::Named { ty, .. } => ty@,
        _ => Seq::<char>::empty(),
    }
}

/// Everything the macro needs to write out a command: its metadata, the name
/// of the generated type, the function's parameters (names and types, in
/// order) and whether the function is asynchronous.
pub struct CommandPlan {
    pub metadata: CommandMetadata,
    pub struct_name: String,
    pub param_names: Vec<String>,
    pub param_types: Vec<String>,
    pub is_async: bool,
}

/// Why `#[command(...)]` refused the function it annotates.
#[derive(Debug)]
pub enum MacroError {
    /// The attribute's arguments were refused.
    Attribute(AttributeError),
    /// A parameter of the function was refused.
    Parameter(ParamError),
}

/// Decides what `#[command(...)]` generates for the function `fn_name` with
/// the parameters `params`: the attribute arguments are read first, then the
/// parameters are checked, in order.
pub fn plan_command(args: &Vec<AttributeArg>, fn_name: &str, is_async: bool, params: &Vec<Param>) -> (r: Result<CommandPlan, MacroError>)
    ensures
        match metadata_of(args@) {
            Err(e) => r matches Err(MacroError::Attribute(re)) && re == e,
            Ok(m) => match param_error_from(params@, 0) {
                Some(pe) => r matches Err(MacroError::Parameter(rpe)) && rpe == pe,
                None => r matches Ok(plan) && plan.metadata@ == m
                    && plan.struct_name@ == generated_struct_name(fn_name@)
                    && crate::parser::views(plan.param_names@) == params@.map_values(|p: Param| param_name(p))
                    && crate::parser::views(plan.param_types@) == params@.map_values(|p: Param| param_type(p))
                    && plan.is_async == is_async,
            },
        },
{
    let metadata = match parse_attributes(args) {
        Ok(m) => m,
        Err(e) => return Err(MacroError::Attribute(e)),
    };
    let mut param_names: Vec<String> = Vec::new();
    let mut param_types: Vec<String> = Vec::new();
    let mut i: usize = 0;
    while i < params.len()
        invariant
            i <= params@.len(),
            param_error_from(params@, i as int) == param_error_from(params@, 0),
            metadata_of(args@) matches Ok(m) && m == metadata@,
            crate::parser::views(param_names@) == params@.subrange(0, i as int).map_values(|p: Param| param_name(p)),
            crate::parser::views(param_types@) == params@.subrange(0, i as int).map_values(|p: Param| param_type(p)),
        decreases params@.len() - i,
    {
        match &params[i] {
            Param::Named { name, ty } => {
                let ghost pn = param_names@;
                let ghost pt = param_types@;
                param_names.push(name.clone());
                param_types.push(ty.clone());
                assert(crate::parser::views(param_names@) =~= crate::parser::views(pn).push(name@));
                assert(crate::parser::views(param_types@) =~= crate::parser::views(pt).push(ty@));
                assert(params@.subrange(0, i + 1).map_values(|p: Param| param_name(p))
                    =~= params@.subrange(0, i as int).map_values(|p: Param| param_name(p)).push(name@));
                assert(params@.subrange(0, i + 1).map_values(|p: Param| param_type(p))
                    =~= params@.subrange(0, i as int).map_values(|p: Param| param_type(p)).push(ty@));
            },
            Param::Pattern => {
                return Err(MacroError::Parameter(ParamError::ExpectedIdentifierPattern { index: i }));
            },
            Param::Receiver => {
                return Err(MacroError::Parameter(ParamError::ExpectedTypedParameter { index: i }));
            },
        }
        i = i + 1;
    }
    assert(params@.subrange(0, params@.len() as int) =~= params@);
    let struct_name = command_struct_name(fn_name);
    Ok(CommandPlan { metadata, struct_name, param_names, param_types, is_async })
}

} // verus!
