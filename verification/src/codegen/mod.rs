//! Code-generation settings, handler metadata and small text transformations
//! used when emitting Rust source.

pub mod inventory;

use crate::expr::ast::Expr;
use crate::codegen::inventory::{macro_items_view, MacroItem};
use crate::handler::HandlerSignature;
use crate::ir::node::{SpecNode, WidgetNode};
use crate::parser::document::DampenDocument;
use crate::text::{
    char_is_alphanumeric, char_is_uppercase, last_non_ws_before, push_str, spec_is_alphanumeric,
    spec_is_uppercase, spec_is_whitespace, spec_trim_end, str_chars, string_from_chars, to_ascii_uppercase, to_ascii_uppercase_spec,
    to_owned_string, trim_end_chars, str_eq,
};
use vstd::prelude::*;

verus! {

// ---------------------------------------------------------------------------
// Outside types and calls
// ---------------------------------------------------------------------------

#[verifier::external_type_specification]
#[verifier::external_body]
pub struct ExSystemTime(std::time::SystemTime);

#[verifier::external_type_specification]
#[verifier::external_body]
pub struct ExIoError(std::io::Error);

/// Calls `SystemTime::now`; the clock's reading is not specified.
#[verifier::external_body]
fn current_time() -> (res: std::time::SystemTime) {
    std::time::SystemTime::now()
}

/// What `syn::parse_file` reports for a text: none when it is a Rust source
/// file, else the error's message.
pub uninterp spec fn rust_syntax_error(code: Seq<char>) -> Option<Seq<char>>;

/// The top-level items of a Rust source file as `syn::parse_file` gives them:
/// for each macro invocation (`Item::Macro`), the last segment of the macro's
/// path and its tokens as `TokenStream::to_string` prints them; none for any
/// other item.
pub uninterp spec fn rust_macro_items(code: Seq<char>) -> Seq<Option<(Option<Seq<char>>, Seq<char>)>>;

/// Calls `syn::parse_file`; its verdict and message are named
/// `rust_syntax_error`, and on success the file's top-level items, copied as
/// above, are named `rust_macro_items`.
#[verifier::external_body]
pub(crate) fn parse_rust_file(code: &str) -> (res: Result<Vec<Option<MacroItem>>, String>)
    ensures
        match res {
            Ok(items) => rust_syntax_error(code@) is None && macro_items_view(items@) == rust_macro_items(code@),
            Err(m) => rust_syntax_error(code@) == Some(m@),
        },
{
    let file = syn::parse_file(code).map_err(|e| e.to_string())?;
    Ok(file.items.iter().map(|item| match item {
        syn::Item::Macro(m) => Some(MacroItem {
            name: m.mac.path.segments.last().map(|s| s.ident.to_string()),
            tokens: m.mac.tokens.to_string(),
        }),
        _ => None,
    }).collect())
}

/// What `prettyplease::unparse` prints for the file `syn::parse_file` reads
/// from a text.
pub uninterp spec fn rust_pretty(code: Seq<char>) -> Seq<char>;

/// `code` names `macro_rules` somewhere.
pub open spec fn mentions_macro_rules(code: Seq<char>) -> bool {
    exists|i: int| 0 <= i && i + 11 <= code.len() && #[trigger] code.subrange(i, i + 11) == "macro_rules"@
}

/// Calls `syn::parse_file` and prints the file with `prettyplease::unparse`
/// (built with its `verbatim` feature, so items `syn` keeps as verbatim
/// tokens are printed too); the printed text is named `rust_pretty`.
/// `unparse` stops with `unimplemented!` on a `macro_rules!` whose rules are
/// not `(..) => {..};` pairs, so texts that name `macro_rules` are left out.
#[verifier::external_body]
fn format_rust_file(code: &str) -> (res: Result<String, String>)
    requires
        !mentions_macro_rules(code@),
    ensures
        match res {
            Ok(t) => rust_syntax_error(code@) is None && t@ == rust_pretty(code@),
            Err(m) => rust_syntax_error(code@) == Some(m@),
        },
{
    let file = syn::parse_file(code).map_err(|e| e.to_string())?;
    Ok(prettyplease::unparse(&file))
}

/// Formats an I/O error with `Display`; the text comes from the operating system.
#[verifier::external_body]
fn io_error_text(e: &std::io::Error) -> (res: String) {
    e.to_string()
}

// ---------------------------------------------------------------------------
// Configuration
// ---------------------------------------------------------------------------

/// A type name: an uppercase first character, then letters, digits and `_`.
pub open spec fn spec_valid_identifier(s: Seq<char>) -> bool {
    s.len() > 0 && spec_is_uppercase(s[0]) && forall|i: int|
        1 <= i < s.len() ==> spec_is_alphanumeric(#[trigger] s[i]) || s[i] == '_'
}

/// Whether `s` can name the model or message type.
pub fn is_valid_identifier(s: &str) -> (res: bool)
    ensures
        res == spec_valid_identifier(s@),
{
    let cs = str_chars(s);
    if cs.len() == 0 {
        return false;
    }
    if !char_is_uppercase(cs[0]) {
        return false;
    }
    let mut i: usize = 1;
    while i < cs.len()
        invariant
            1 <= i <= cs@.len(),
            cs@ == s@,
            forall|j: int| 1 <= j < i ==> spec_is_alphanumeric(#[trigger] cs@[j]) || cs@[j] == '_',
        decreases cs.len() - i,
    {
        if !(char_is_alphanumeric(cs[i]) || cs[i] == '_') {
            return false;
        }
        i = i + 1;
    }
    true
}

/// Settings of the code generator.
#[derive(Debug, Clone)]
pub struct CodegenConfig {
    /// Output directory for generated code, as text.
    pub output_dir: String,
    /// Whether to format generated code.
    pub format_output: bool,
    /// Whether to check the syntax of generated code.
    pub validate_syntax: bool,
    /// Model type name.
    pub model_type: String,
    /// Message enum name.
    pub message_type: String,
}

/// Why a configuration is refused: an empty directory, or a type name that is not an identifier.
pub open spec fn spec_config_check(output_dir: Seq<char>, model: Seq<char>, message: Seq<char>) -> Result<(), Seq<char>> {
    if output_dir.len() == 0 {
        Err("Output directory cannot be empty"@)
    } else if !spec_valid_identifier(model) {
        Err("Model type '"@ + model + "' is not a valid Rust identifier"@)
    } else if !spec_valid_identifier(message) {
        Err("Message type '"@ + message + "' is not a valid Rust identifier"@)
    } else {
        Ok(())
    }
}

impl CodegenConfig {
    /// Settings for `output_dir`: formatting and syntax checks on, types `Model` and `Message`.
    pub fn new(output_dir: String) -> (res: CodegenConfig)
        ensures
            res.output_dir == output_dir,
            res.format_output,
            res.validate_syntax,
            res.model_type@ == "Model"@,
            res.message_type@ == "Message"@,
    {
        CodegenConfig {
            output_dir,
            format_output: true,
            validate_syntax: true,
            model_type: to_owned_string("Model"),
            message_type: to_owned_string("Message"),
        }
    }

    pub fn with_model_type(self, model_type: &str) -> (res: CodegenConfig)
        ensures
            res.model_type@ == model_type@,
            res.output_dir == self.output_dir,
            res.format_output == self.format_output,
            res.validate_syntax == self.validate_syntax,
            res.message_type == self.message_type,
    {
        let mut c = self;
        c.model_type = to_owned_string(model_type);
        c
    }

    pub fn with_message_type(self, message_type: &str) -> (res: CodegenConfig)
        ensures
            res.message_type@ == message_type@,
            res.output_dir == self.output_dir,
            res.format_output == self.format_output,
            res.validate_syntax == self.validate_syntax,
            res.model_type == self.model_type,
    {
        let mut c = self;
        c.message_type = to_owned_string(message_type);
        c
    }

    pub fn with_formatting(self, format_output: bool) -> (res: CodegenConfig)
        ensures
            res.format_output == format_output,
            res.output_dir == self.output_dir,
            res.validate_syntax == self.validate_syntax,
            res.model_type == self.model_type,
            res.message_type == self.message_type,
    {
        let mut c = self;
        c.format_output = format_output;
        c
    }

    pub fn with_validation(self, validate_syntax: bool) -> (res: CodegenConfig)
        ensures
            res.validate_syntax == validate_syntax,
            res.output_dir == self.output_dir,
            res.format_output == self.format_output,
            res.model_type == self.model_type,
            res.message_type == self.message_type,
    {
        let mut c = self;
        c.validate_syntax = validate_syntax;
        c
    }

    /// Checks the directory and the two type names.
    pub fn validate(&self) -> (res: Result<(), String>)
        ensures
            match spec_config_check(self.output_dir@, self.model_type@, self.message_type@) {
                Ok(()) => res is Ok,
                Err(m) => res matches Err(r) && r@ == m,
            },
    {
        if self.output_dir.as_str().unicode_len() == 0 {
            return Err(to_owned_string("Output directory cannot be empty"));
        }
        if !is_valid_identifier(self.model_type.as_str()) {
            let mut m = to_owned_string("Model type '");
            push_str(&mut m, self.model_type.as_str());
            push_str(&mut m, "' is not a valid Rust identifier");
            return Err(m);
        }
        if !is_valid_identifier(self.message_type.as_str()) {
            let mut m = to_owned_string("Message type '");
            push_str(&mut m, self.message_type.as_str());
            push_str(&mut m, "' is not a valid Rust identifier");
            return Err(m);
        }
        Ok(())
    }
}

impl Default for CodegenConfig {
    /// Output into `target/generated`.
    fn default() -> (res: CodegenConfig)
        ensures
            res.output_dir@ == "target/generated"@,
            res.format_output,
            res.validate_syntax,
            res.model_type@ == "Model"@,
            res.message_type@ == "Message"@,
    {
        CodegenConfig::new(to_owned_string("target/generated"))
    }
}

// ---------------------------------------------------------------------------
// Handler metadata
// ---------------------------------------------------------------------------

/// How a handler is called.
#[derive(Debug, Clone, Copy, PartialEq, Eq, Structural)]
pub enum HandlerSignatureType {
    /// `fn(&mut Model)`.
    Simple,
    /// `fn(&mut Model, T)`.
    WithValue,
    /// `fn(&mut Model) -> Command<Message>`.
    WithCommand,
}

/// Metadata of a handler, as registered at build time.
#[derive(Debug, Clone)]
pub struct HandlerInfo {
    pub name: &'static str,
    pub signature_type: HandlerSignatureType,
    pub param_types: &'static [&'static str],
    pub return_type: &'static str,
    pub source_file: &'static str,
    pub source_line: u32,
}

impl HandlerInfo {
    /// The signature the code generator uses: a value handler takes its
    /// second parameter type (when there is one); a command handler returns a command.
    pub fn to_signature(&self) -> (res: HandlerSignature)
        ensures
            res.name@ == self.name@,
            res.returns_command == (self.signature_type == HandlerSignatureType::WithCommand),
            match res.param_type {
                Some(p) => self.signature_type == HandlerSignatureType::WithValue && self.param_types@.len() > 1
                    && p@ == self.param_types@[1]@,
                None => !(self.signature_type == HandlerSignatureType::WithValue && self.param_types@.len() > 1),
            },
    {
        let param_type = match self.signature_type {
            HandlerSignatureType::Simple => None,
            HandlerSignatureType::WithValue => {
                if self.param_types.len() > 1 {
                    Some(to_owned_string(self.param_types[1]))
                } else {
                    None
                }
            },
            HandlerSignatureType::WithCommand => None,
        };
        let returns_command = matches!(self.signature_type, HandlerSignatureType::WithCommand);
        HandlerSignature { name: to_owned_string(self.name), param_type, returns_command }
    }
}

// ---------------------------------------------------------------------------
// Outputs and errors
// ---------------------------------------------------------------------------

/// Generated code with warnings.
#[derive(Debug)]
pub struct CodegenOutput {
    pub code: String,
    pub warnings: Vec<String>,
}

/// A generated application.
#[derive(Debug, Clone)]
pub struct GeneratedApplication {
    pub code: String,
    pub handlers: Vec<String>,
    pub widgets: Vec<String>,
    pub warnings: Vec<String>,
}

/// Generated code with the module it belongs to and where it came from.
#[derive(Debug)]
pub struct GeneratedCode {
    pub code: String,
    pub module_name: String,
    /// Path of the source document, as text.
    pub source_file: String,
    pub timestamp: std::time::SystemTime,
    pub validated: bool,
}

impl GeneratedCode {
    /// Not yet validated; stamped with the current time.
    pub fn new(code: String, module_name: String, source_file: String) -> (res: GeneratedCode)
        ensures
            res.code == code,
            res.module_name == module_name,
            res.source_file == source_file,
            !res.validated,
    {
        GeneratedCode { code, module_name, source_file, timestamp: current_time(), validated: false }
    }

    /// Checks that the code is a Rust source file, and marks it validated.
    pub fn validate(&mut self) -> (res: Result<(), String>)
        ensures
            final(self).code == old(self).code,
            match rust_syntax_error(old(self).code@) {
                None => res is Ok && final(self).validated,
                Some(m) => res matches Err(r) && r@ == "Syntax validation failed: "@ + m
                    && final(self).validated == old(self).validated,
            },
    {
        match parse_rust_file(self.code.as_str()) {
            Ok(_) => {
                self.validated = true;
                Ok(())
            },
            Err(e) => {
                let mut m = to_owned_string("Syntax validation failed: ");
                push_str(&mut m, e.as_str());
                Err(m)
            },
        }
    }

    /// Lays the code out again when it parses. Code that defines macros with
    /// `macro_rules!` is not taken: the printer cannot lay out every rule.
    pub fn format(&mut self) -> (res: Result<(), String>)
        requires
            !mentions_macro_rules(old(self).code@),
        ensures
            final(self).validated == old(self).validated,
            match rust_syntax_error(old(self).code@) {
                None => res is Ok && final(self).code@ == rust_pretty(old(self).code@),
                Some(m) => res matches Err(r) && r@ == "Failed to parse code for formatting: "@ + m
                    && final(self).code == old(self).code,
            },
    {
        match format_rust_file(self.code.as_str()) {
            Ok(text) => {
                self.code = text;
                Ok(())
            },
            Err(e) => {
                let mut m = to_owned_string("Failed to parse code for formatting: ");
                push_str(&mut m, e.as_str());
                Err(m)
            },
        }
    }
}

/// Errors of code generation.
#[derive(Debug)]
pub enum CodegenError {
    MissingHandler(String),
    InvalidWidget(String),
    BindingError(String),
    ThemeError(String),
    IoError(std::io::Error),
}

impl CodegenError {
    /// The error as a sentence.
    pub fn to_message(&self) -> (res: String)
        ensures
            match self {
                CodegenError::MissingHandler(h) => res@ == "Handler '"@ + h@ + "' is referenced but not defined"@,
                CodegenError::InvalidWidget(w) => res@ == "Invalid widget kind for code generation: "@ + w@,
                CodegenError::BindingError(b) => res@ == "Binding expression error: "@ + b@,
                CodegenError::ThemeError(t) => res@ == "Theme code generation error: "@ + t@,
                CodegenError::IoError(_) => res@.subrange(0, 10) == "IO error: "@ && res@.len() >= 10,
            },
    {
        match self {
            CodegenError::MissingHandler(h) => crate::text::concat3("Handler '", h.as_str(), "' is referenced but not defined"),
            CodegenError::InvalidWidget(w) => crate::text::concat2("Invalid widget kind for code generation: ", w.as_str()),
            CodegenError::BindingError(b) => crate::text::concat2("Binding expression error: ", b.as_str()),
            CodegenError::ThemeError(t) => crate::text::concat2("Theme code generation error: ", t.as_str()),
            CodegenError::IoError(e) => {
                let t = io_error_text(e);
                proof {
                    reveal_strlit("IO error: ");
                }
                let r = crate::text::concat2("IO error: ", t.as_str());
                assert(r@.subrange(0, 10) =~= "IO error: "@);
                r
            },
        }
    }
}

// ---------------------------------------------------------------------------
// Subscriptions
// ---------------------------------------------------------------------------

/// Settings of the generated subscription function.
#[derive(Debug, Clone)]
pub struct SubscriptionConfig {
    /// Whether to follow the system theme.
    pub system_theme: bool,
    /// Name of the message enum.
    pub message_name: String,
    /// Message variant for a change of system theme.
    pub system_theme_variant: Option<String>,
}

impl Default for SubscriptionConfig {
    fn default() -> (res: SubscriptionConfig)
        ensures
            !res.system_theme,
            res.message_name@ == "Message"@,
            res.system_theme_variant is None,
    {
        SubscriptionConfig { system_theme: false, message_name: to_owned_string("Message"), system_theme_variant: None }
    }
}

impl SubscriptionConfig {
    /// The subscriptions a theme file asks for: the system theme is followed,
    /// with variant `SystemThemeChanged`, when there is a theme file and it
    /// follows the system.
    pub fn from_theme_document(theme_doc: Option<&crate::ir::theme::ThemeDocument>, message_name: &str) -> (res: SubscriptionConfig)
        ensures
            res.system_theme == (theme_doc matches Some(d) && d.follow_system),
            res.message_name@ == message_name@,
            res.system_theme ==> (res.system_theme_variant matches Some(v) && v@ == "SystemThemeChanged"@),
            !res.system_theme ==> res.system_theme_variant is None,
    {
        let system_theme = match theme_doc {
            Some(d) => d.follow_system,
            None => false,
        };
        let system_theme_variant = if system_theme {
            Some(to_owned_string("SystemThemeChanged"))
        } else {
            None
        };
        SubscriptionConfig { system_theme, message_name: to_owned_string(message_name), system_theme_variant }
    }

    /// Follows the system theme, reporting changes with message variant `variant`.
    pub fn with_system_theme_variant(self, variant: &str) -> (res: SubscriptionConfig)
        ensures
            res.system_theme,
            res.system_theme_variant matches Some(v) && v@ == variant@,
            res.message_name == self.message_name,
    {
        let mut c = self;
        c.system_theme_variant = Some(to_owned_string(variant));
        c.system_theme = true;
        c
    }
}

// ---------------------------------------------------------------------------
// Text transformations
// ---------------------------------------------------------------------------

/// `snake_case` to `UpperCamelCase`: underscores are dropped and the
/// character after each (and the first) is made ASCII uppercase.
pub open spec fn camel(s: Seq<char>, cap: bool) -> Seq<char>
    decreases s.len(),
{
    if s.len() == 0 {
        Seq::empty()
    } else if s[0] == '_' {
        camel(s.drop_first(), true)
    } else if cap {
        seq![to_ascii_uppercase_spec(s[0])] + camel(s.drop_first(), false)
    } else {
        seq![s[0]] + camel(s.drop_first(), false)
    }
}

pub fn to_upper_camel_case(s: &str) -> (res: String)
    ensures
        res@ == camel(s@, true),
{
    let cs = str_chars(s);
    let mut out: Vec<char> = Vec::new();
    let mut cap = true;
    let mut i: usize = 0;
    assert(cs@.subrange(0, cs@.len() as int) =~= cs@);
    while i < cs.len()
        invariant
            i <= cs@.len(),
            cs@ == s@,
            out@ + camel(cs@.subrange(i as int, cs@.len() as int), cap) == camel(s@, true),
        decreases cs.len() - i,
    {
        let c = cs[i];
        let ghost rest = cs@.subrange(i as int, cs@.len() as int);
        assert(rest.drop_first() =~= cs@.subrange(i + 1, cs@.len() as int));
        let ghost before = out@;
        if c == '_' {
            cap = true;
        } else if cap {
            out.push(to_ascii_uppercase(c));
            cap = false;
            assert(before + camel(rest, true) =~= out@ + camel(rest.drop_first(), false));
        } else {
            out.push(c);
            assert(before + camel(rest, false) =~= out@ + camel(rest.drop_first(), false));
        }
        i = i + 1;
    }
    assert(cs@.subrange(cs@.len() as int, cs@.len() as int) =~= Seq::<char>::empty());
    assert(out@ =~= out@ + camel(Seq::<char>::empty(), cap));
    string_from_chars(out.as_slice())
}

/// `s` with every run of spaces shortened to one space.
pub open spec fn collapse_spaces(s: Seq<char>) -> Seq<char>
    decreases s.len(),
{
    if s.len() == 0 {
        Seq::empty()
    } else if s.len() >= 2 && s.last() == ' ' && s[s.len() - 2] == ' ' {
        collapse_spaces(s.drop_last())
    } else {
        collapse_spaces(s.drop_last()).push(s.last())
    }
}

/// The lines of `s` (split at `\n`) without trailing whitespace and with runs
/// of spaces shortened to one, empty ones dropped, each followed by `\n`.
pub open spec fn folded_lines(s: Seq<char>) -> Seq<char>
    decreases s.len(),
{
    let k = crate::parser::version::first_index(s, '\n');
    let line = collapse_spaces(spec_trim_end(s.subrange(0, if 0 <= k <= s.len() { k } else { s.len() as int })));
    let head = if line.len() > 0 {
        line.push('\n')
    } else {
        Seq::empty()
    };
    if k < 0 || k >= s.len() {
        head
    } else {
        proof {
            crate::parser::values::lemma_first_index_bounds(s, '\n');
        }
        head + folded_lines(s.subrange(k + 1, s.len() as int))
    }
}

/// Shortening runs of spaces leaves a string empty exactly when it was empty.
proof fn lemma_collapse_empty(s: Seq<char>)
    ensures
        (collapse_spaces(s).len() == 0) == (s.len() == 0),
    decreases s.len(),
{
    if s.len() > 0 {
        lemma_collapse_empty(s.drop_last());
    }
}

/// Two spaces stand side by side at `i` in `s`.
pub open spec fn space_pair(s: Seq<char>, i: int) -> bool {
    s[i] == ' ' && s[i + 1] == ' '
}

/// No two spaces stand side by side in `s`.
pub open spec fn no_double_space(s: Seq<char>) -> bool {
    forall|i: int| 0 <= i < s.len() - 1 ==> !#[trigger] space_pair(s, i)
}

/// What shortening runs of spaces keeps: the last character, the absence of
/// a character, and no two spaces side by side.
proof fn lemma_collapse_props(s: Seq<char>, c: char)
    ensures
        no_double_space(collapse_spaces(s)),
        s.len() > 0 ==> collapse_spaces(s).len() > 0 && collapse_spaces(s).last() == s.last(),
        (forall|j: int| 0 <= j < s.len() ==> s[j] != c) ==> (forall|j: int|
            0 <= j < collapse_spaces(s).len() ==> collapse_spaces(s)[j] != c),
    decreases s.len(),
{
    if s.len() > 0 {
        let t = s.drop_last();
        lemma_collapse_props(t, c);
        if (forall|j: int| 0 <= j < s.len() ==> s[j] != c) {
            assert forall|j: int| 0 <= j < t.len() implies t[j] != c by {
                assert(t[j] == s[j]);
            }
        }
        if !(s.len() >= 2 && s.last() == ' ' && s[s.len() - 2] == ' ') {
            let ct = collapse_spaces(t);
            let r = ct.push(s.last());
            assert(collapse_spaces(s) == r);
            assert forall|i: int| 0 <= i < r.len() - 1 implies !#[trigger] space_pair(r, i) by {
                if i < ct.len() - 1 {
                    assert(!space_pair(ct, i));
                } else {
                    assert(ct.last() == t.last());
                    assert(t.last() == s[s.len() - 2]);
                }
            }
        }
    }
}

/// Shortening runs of spaces leaves alone a string that has none.
proof fn lemma_collapse_identity(s: Seq<char>)
    requires
        no_double_space(s),
    ensures
        collapse_spaces(s) == s,
    decreases s.len(),
{
    if s.len() > 0 {
        let t = s.drop_last();
        assert forall|i: int| 0 <= i < t.len() - 1 implies !#[trigger] space_pair(t, i) by {
            assert(!space_pair(s, i));
        }
        lemma_collapse_identity(t);
        if s.len() >= 2 {
            assert(!space_pair(s, s.len() - 2));
        }
        assert(t.push(s.last()) =~= s);
    }
}

/// The last character before `last_non_ws_before(s, j)` is no whitespace.
proof fn lemma_last_non_ws(s: Seq<char>, j: int)
    requires
        0 <= j <= s.len(),
    ensures
        0 <= last_non_ws_before(s, j) <= j,
        last_non_ws_before(s, j) > 0 ==> !spec_is_whitespace(s[last_non_ws_before(s, j) - 1]),
    decreases j,
{
    if j > 0 && spec_is_whitespace(s[j - 1]) {
        lemma_last_non_ws(s, j - 1);
    }
}

/// A line as `constant_folding` writes it is written again unchanged.
proof fn lemma_line_refolds(pre: Seq<char>)
    requires
        forall|j: int| 0 <= j < pre.len() ==> pre[j] != '\n',
    ensures
        ({
            let line = collapse_spaces(spec_trim_end(pre));
            line.len() > 0 ==> (forall|j: int| 0 <= j < line.len() ==> line[j] != '\n')
                && collapse_spaces(spec_trim_end(line)) == line
        }),
{
    let te = spec_trim_end(pre);
    lemma_last_non_ws(pre, pre.len() as int);
    assert forall|j: int| 0 <= j < te.len() implies te[j] != '\n' by {
        assert(te[j] == pre[j]);
    }
    lemma_collapse_props(te, '\n');
    let line = collapse_spaces(te);
    if line.len() > 0 {
        assert(te.len() > 0);
        assert(!spec_is_whitespace(line.last()));
        lemma_last_non_ws(line, line.len() as int);
        assert(spec_trim_end(line) =~= line);
        lemma_collapse_identity(line);
    }
}

/// Folding a first line that ends in `\n` is folding that line, then the rest.
proof fn lemma_fold_first_line(l: Seq<char>, t: Seq<char>)
    requires
        forall|j: int| 0 <= j < l.len() ==> l[j] != '\n',
    ensures
        ({
            let line = collapse_spaces(spec_trim_end(l));
            let head = if line.len() > 0 { line.push('\n') } else { Seq::<char>::empty() };
            folded_lines(l.push('\n') + t) == head + folded_lines(t)
        }),
{
    let s = l.push('\n') + t;
    assert forall|j: int| 0 <= j < l.len() implies s[j] != '\n' by {
        assert(s[j] == l[j]);
    }
    assert(s[l.len() as int] == '\n');
    crate::parser::version::lemma_first_index(s, '\n', l.len() as int);
    assert(s.subrange(0, l.len() as int) =~= l);
    assert(s.subrange(l.len() + 1 as int, s.len() as int) =~= t);
}

/// `constant_folding` is idempotent: tidying tidied code changes nothing.
pub proof fn lemma_constant_folding_idempotent(code: Seq<char>)
    ensures
        folded_lines(folded_lines(code)) == folded_lines(code),
    decreases code.len(),
{
    let s = code;
    let k = crate::parser::version::first_index(s, '\n');
    crate::parser::values::lemma_first_index_bounds(s, '\n');
    let pre = s.subrange(0, k);
    assert forall|j: int| 0 <= j < pre.len() implies pre[j] != '\n' by {
        assert(pre[j] == s[j]);
    }
    lemma_line_refolds(pre);
    let line = collapse_spaces(spec_trim_end(pre));
    let e = Seq::<char>::empty();
    assert(folded_lines(e) == e) by {
        assert(spec_trim_end(e) =~= e);
    }
    if k >= s.len() {
        if line.len() > 0 {
            lemma_fold_first_line(line, e);
            assert(line.push('\n') + e =~= line.push('\n'));
            assert(line.push('\n') + folded_lines(e) =~= line.push('\n'));
        }
    } else {
        let rest = s.subrange(k + 1, s.len() as int);
        lemma_constant_folding_idempotent(rest);
        if line.len() > 0 {
            lemma_fold_first_line(line, folded_lines(rest));
        } else {
            assert(e + folded_lines(rest) =~= folded_lines(rest));
        }
    }
}

/// Tidies generated code: drops blank lines, trims trailing whitespace from
/// each line and turns runs of spaces into one space.
pub fn constant_folding(code: &str) -> (res: String)
    ensures
        res@ == folded_lines(code@),
{
    let v = str_chars(code);
    let mut out: Vec<char> = Vec::new();
    let mut i: usize = 0;
    assert(v@.subrange(0, v@.len() as int) =~= v@);
    loop
        invariant_except_break
            i <= v@.len(),
            v@ == code@,
            out@ + folded_lines(v@.subrange(i as int, v@.len() as int)) == folded_lines(code@),
        ensures
            out@ == folded_lines(code@),
        decreases v@.len() - i,
    {
        let ghost rest = v@.subrange(i as int, v@.len() as int);
        let k = crate::parser::values::find_char(v.as_slice(), i, '\n');
        proof {
            crate::parser::values::lemma_first_index_bounds(rest, '\n');
        }
        let n = v.len();
        assert(i + k <= n);
        let end = i + k;
        let line = trim_end_chars(&v.as_slice()[i..end]);
        assert(v@.subrange(i as int, end as int) =~= rest.subrange(0, k as int));
        let ghost before = out@;
        let mut m: usize = 0;
        while m < line.len()
            invariant
                m <= line@.len(),
                out@ == before + collapse_spaces(line@.subrange(0, m as int)),
            decreases line.len() - m,
        {
            proof {
                assert(line@.subrange(0, m + 1).drop_last() =~= line@.subrange(0, m as int));
            }
            if !(line[m] == ' ' && m > 0 && line[m - 1] == ' ') {
                out.push(line[m]);
            }
            m = m + 1;
        }
        assert(line@.subrange(0, line@.len() as int) =~= line@);
        proof {
            lemma_collapse_empty(line@);
        }
        let ghost cl = collapse_spaces(line@);
        if line.len() > 0 {
            out.push('\n');
        }
        let ghost head = if cl.len() > 0 { cl.push('\n') } else { Seq::<char>::empty() };
        assert(out@ =~= before + head);
        if end >= n {
            assert(folded_lines(rest) == head);
            assert(out@ =~= folded_lines(code@));
            break;
        }
        assert(rest.subrange(k + 1, rest.len() as int) =~= v@.subrange(end + 1, v@.len() as int));
        assert(folded_lines(rest) == head + folded_lines(v@.subrange(end + 1, v@.len() as int)));
        assert(out@ + folded_lines(v@.subrange(end + 1, v@.len() as int)) =~= before + folded_lines(rest));
        i = end + 1;
    }
    string_from_chars(out.as_slice())
}

/// Every binding expression can be inlined into generated code.
#[verifier::loop_isolation(false)]
pub fn validate_expression_inlinable(expr: &Expr) -> (res: Result<(), CodegenError>)
    ensures
        res is Ok,
    decreases expr,
{
    match expr {
        Expr::FieldAccess(_) => Ok(()),
        Expr::SharedFieldAccess(_) => Ok(()),
        Expr::MethodCall(m) => {
            match validate_expression_inlinable(&m.receiver) {
                Ok(()) => {},
                Err(e) => {
                    return Err(e);
                },
            }
            let mut i: usize = 0;
            while i < m.args.len()
                invariant
                    i <= m.args.len(),
                decreases m.args.len() - i,
            {
                proof {
                    assert(decreases_to!(m.args => m.args@));
                    assert(decreases_to!(m.args@ => m.args@[i as int]));
                }
                match validate_expression_inlinable(&m.args[i]) {
                    Ok(()) => {},
                    Err(e) => {
                        return Err(e);
                    },
                }
                i = i + 1;
            }
            Ok(())
        },
        Expr::BinaryOp(b) => {
            match validate_expression_inlinable(&b.left) {
                Ok(()) => {},
                Err(e) => {
                    return Err(e);
                },
            }
            validate_expression_inlinable(&b.right)
        },
        Expr::UnaryOp(u) => validate_expression_inlinable(&u.operand),
        Expr::Conditional(c) => {
            match validate_expression_inlinable(&c.condition) {
                Ok(()) => {},
                Err(e) => {
                    return Err(e);
                },
            }
            match validate_expression_inlinable(&c.then_branch) {
                Ok(()) => {},
                Err(e) => {
                    return Err(e);
                },
            }
            validate_expression_inlinable(&c.else_branch)
        },
        Expr::Literal(_) => Ok(()),
    }
}

/// The icon character for an icon name (a circle for unknown names).
pub open spec fn spec_icon(name: Seq<char>) -> char {
    if name == "home"@ { '\u{F015}' }
    else if name == "settings"@ { '\u{F013}' }
    else if name == "user"@ { '\u{F007}' }
    else if name == "search"@ { '\u{F002}' }
    else if name == "add"@ { '\u{F067}' }
    else if name == "delete"@ { '\u{F1F8}' }
    else if name == "edit"@ { '\u{F044}' }
    else if name == "save"@ { '\u{F0C7}' }
    else if name == "close"@ { '\u{F00D}' }
    else if name == "back"@ { '\u{F060}' }
    else if name == "forward"@ { '\u{F061}' }
    else { '\u{F111}' }
}

pub fn resolve_icon_for_codegen(name: &str) -> (res: char)
    ensures
        res == spec_icon(name@),
{
    if str_eq(name, "home") { '\u{F015}' }
    else if str_eq(name, "settings") { '\u{F013}' }
    else if str_eq(name, "user") { '\u{F007}' }
    else if str_eq(name, "search") { '\u{F002}' }
    else if str_eq(name, "add") { '\u{F067}' }
    else if str_eq(name, "delete") { '\u{F1F8}' }
    else if str_eq(name, "edit") { '\u{F044}' }
    else if str_eq(name, "save") { '\u{F0C7}' }
    else if str_eq(name, "close") { '\u{F00D}' }
    else if str_eq(name, "back") { '\u{F060}' }
    else if str_eq(name, "forward") { '\u{F061}' }
    else { '\u{F111}' }
}

// ---------------------------------------------------------------------------
// Handlers referenced by a document
// ---------------------------------------------------------------------------

/// The handler names of the events of a tree, in pre-order.
pub open spec fn tree_handlers(n: SpecNode) -> Seq<Seq<char>>
    decreases n, 1nat,
{
    n.events.map_values(|e: crate::ir::node::SpecEvent| e.1) + forest_handlers(n.children, n.children.len() as int)
}

pub open spec fn forest_handlers(cs: Seq<SpecNode>, k: int) -> Seq<Seq<char>>
    decreases cs, 0nat, k,
{
    if k <= 0 || k > cs.len() {
        Seq::empty()
    } else {
        forest_handlers(cs, k - 1) + {
            proof {
                assert(decreases_to!(cs => cs[k - 1]));
            }
            tree_handlers(cs[k - 1])
        }
    }
}

#[verifier::loop_isolation(false)]
fn collect_handlers(node: &WidgetNode, out: &mut Vec<String>)
    ensures
        final(out)@.map_values(|s: String| s@) == old(out)@.map_values(|s: String| s@) + tree_handlers(node@),
    decreases node,
{
    let ghost start = out@.map_values(|s: String| s@);
    let mut k: usize = 0;
    while k < node.events.len()
        invariant
            k <= node.events@.len(),
            out@.map_values(|s: String| s@) == start + node@.events.subrange(0, k as int).map_values(|e: crate::ir::node::SpecEvent| e.1),
        decreases node.events.len() - k,
    {
        let ghost before = out@.map_values(|s: String| s@);
        let ghost h = node.events@[k as int].handler@;
        out.push(node.events[k].handler.clone());
        assert(node@.events[k as int] == node.events@[k as int]@);
        assert(node@.events[k as int].1 == h);
        assert(out@.map_values(|s: String| s@) =~= before.push(h));
        assert(node@.events.subrange(0, k + 1) =~= node@.events.subrange(0, k as int).push(node@.events[k as int]));
        assert(out@.map_values(|s: String| s@) =~= start + node@.events.subrange(0, k + 1).map_values(|e: crate::ir::node::SpecEvent| e.1));
        k = k + 1;
    }
    assert(node@.events.subrange(0, node@.events.len() as int) =~= node@.events);
    let ghost head = out@.map_values(|s: String| s@);
    let mut i: usize = 0;
    while i < node.children.len()
        invariant
            i <= node.children@.len(),
            out@.map_values(|s: String| s@) == head + forest_handlers(node@.children, i as int),
        decreases node.children.len() - i,
    {
        proof {
            assert(decreases_to!(node.children => node.children@));
            assert(decreases_to!(node.children@ => node.children@[i as int]));
        }
        assert(node@.children[i as int] == node.children@[i as int]@);
        collect_handlers(&node.children[i], out);
        assert(out@.map_values(|s: String| s@) =~= head + forest_handlers(node@.children, i + 1));
        i = i + 1;
    }
    assert(out@.map_values(|s: String| s@) =~= start + tree_handlers(node@));
}

/// Every handler the document refers to is available; otherwise the first
/// missing one in pre-order.
pub fn validate_handlers(document: &DampenDocument, available_handlers: &[HandlerSignature]) -> (res: Result<(), CodegenError>)
    ensures
        ({
            let hs = tree_handlers(document.root@);
            let names = available_handlers@.map_values(|h: HandlerSignature| h.name@);
            &&& (res is Ok <==> forall|i: int| 0 <= i < hs.len() ==> names.contains(#[trigger] hs[i]))
            &&& (res matches Err(e) ==> exists|i: int| 0 <= i < hs.len() && !names.contains(hs[i])
                && (forall|j: int| 0 <= j < i ==> names.contains(#[trigger] hs[j]))
                && (e matches CodegenError::MissingHandler(h) && h@ == hs[i]))
        }),
{
    let mut referenced: Vec<String> = Vec::new();
    assert(referenced@.map_values(|s: String| s@) =~= Seq::<Seq<char>>::empty());
    collect_handlers(&document.root, &mut referenced);
    assert(referenced@.map_values(|s: String| s@) =~= tree_handlers(document.root@));
    let ghost hs = tree_handlers(document.root@);
    let ghost names = available_handlers@.map_values(|h: HandlerSignature| h.name@);
    let mut i: usize = 0;
    while i < referenced.len()
        invariant
            i <= referenced@.len(),
            referenced@.map_values(|s: String| s@) == hs,
            hs == tree_handlers(document.root@),
            names == available_handlers@.map_values(|h: HandlerSignature| h.name@),
            forall|j: int| 0 <= j < i ==> names.contains(#[trigger] hs[j]),
        decreases referenced.len() - i,
    {
        let mut found = false;
        let mut k: usize = 0;
        while k < available_handlers.len()
            invariant
                k <= available_handlers@.len(),
                i < referenced@.len(),
                found == (exists|m: int| 0 <= m < k && (#[trigger] available_handlers@[m]).name@ == referenced@[i as int]@),
            decreases available_handlers.len() - k,
        {
            if crate::text::str_eq(available_handlers[k].name.as_str(), referenced[i].as_str()) {
                found = true;
            }
            proof {
                if available_handlers@[k as int].name@ == referenced@[i as int]@ {
                    assert(exists|m: int| 0 <= m < k + 1 && (#[trigger] available_handlers@[m]).name@ == referenced@[i as int]@);
                }
            }
            k = k + 1;
        }
        assert(hs[i as int] == referenced@[i as int]@);
        if !found {
            proof {
                assert forall|m: int| 0 <= m < names.len() implies names[m] != hs[i as int] by {
                    assert(available_handlers@[m].name@ == names[m]);
                }
                assert(!names.contains(hs[i as int]));
            }
            let r = CodegenError::MissingHandler(referenced[i].clone());
            assert(exists|w: int| 0 <= w < hs.len() && !names.contains(hs[w])
                && (forall|j: int| 0 <= j < w ==> names.contains(#[trigger] hs[j]))
                && (r matches CodegenError::MissingHandler(h) && h@ == hs[w])) by {
                assert(0 <= i < hs.len() && !names.contains(hs[i as int]));
            }
            assert(!(forall|j: int| 0 <= j < hs.len() ==> names.contains(#[trigger] hs[j])));
            return Err(r);
        }
        proof {
            let m = choose|m: int| 0 <= m < k && (#[trigger] available_handlers@[m]).name@ == referenced@[i as int]@;
            assert(names[m] == hs[i as int]);
        }
        i = i + 1;
    }
    Ok(())
}

} // verus!
