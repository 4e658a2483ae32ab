//! External handler selection: ordered rules, explainable diagnostics, and invocation
//! templates rendered into exact arguments or explicitly quoted shell scripts.
//!
//! Whether a rule's resource predicate matches is decided by the predicate engine; the
//! registry takes those outcomes, one per rule, and decides everything else.

use vstd::prelude::*;

use crate::external::{
    native_views, ExternalAction, ExternalInvocation, ExternalInvocationMode, ExternalResolution,
};
use crate::local_fs::{
    native_of_text, native_path_from_text, native_text_of, shell_quoted, NativePathView, PathStyle,
};
use crate::resource::{ResourceMetadata, ResourceRef};
use crate::config_text::first_index;
use crate::text::{chars_of, push_str, replace_all, spec_find, spec_trim};

verus! {

broadcast use vstd::string::group_string_axioms;

pub const HANDLER_SCHEMA_VERSION: u16 = 1;

/// The resource a handler is resolved for, with its native path and that path's parent
/// when the resource has them, in the path conventions of the platform.
pub struct HandlerContext {
    pub resource: ResourceRef,
    pub metadata: ResourceMetadata,
    pub native_path: Option<crate::local_fs::NativePath>,
    pub native_parent: Option<crate::local_fs::NativePath>,
    pub style: PathStyle,
}

/// A value of an invocation template.
#[derive(Clone, Debug, PartialEq, Eq)]
pub enum HandlerValue {
    Literal(String),
    ResourceUri,
    ResourceName,
    NativePath,
    NativeParent,
}

/// How a handler starts its tool.
#[derive(Clone, Debug, PartialEq, Eq)]
pub enum HandlerInvocationTemplate {
    Argv { program: String, arguments: Vec<HandlerValue>, current_directory: Option<HandlerValue> },
    Shell { shell: String, script: String, current_directory: Option<HandlerValue> },
}

#[derive(Clone, Debug, PartialEq, Eq)]
pub enum HandlerError {
    UnsupportedSchema(u16),
    EmptyId,
    DuplicateId(String),
    InvalidPredicate(String),
    ContentPredicateUnsupported(String),
    NoMatch,
    MissingValue(HandlerValue),
    NonUnicodeShellValue(HandlerValue),
    UnknownShellPlaceholder(String),
    InvalidCurrentDirectory,
}

/// The `Debug` text of a string (`format!("{s:?}")`).
pub uninterp spec fn str_debug(s: Seq<char>) -> Seq<char>;

/// `<str as Debug>::fmt`, through `format!`: the quoted, escaped form of a string.
#[verifier::external_body]
pub(crate) fn debug_str(s: &str) -> (r: String)
    ensures
        r@ == str_debug(s@),
{
    format!("{s:?}")
}

/// The `Debug` text of a template value.
pub open spec fn handler_value_debug(v: HandlerValue) -> Seq<char> {
    match v {
        HandlerValue::Literal(s) => "Literal("@ + str_debug(s@) + ")"@,
        HandlerValue::ResourceUri => "ResourceUri"@,
        HandlerValue::ResourceName => "ResourceName"@,
        HandlerValue::NativePath => "NativePath"@,
        HandlerValue::NativeParent => "NativeParent"@,
    }
}

fn handler_value_text(v: &HandlerValue) -> (r: String)
    ensures
        r@ == handler_value_debug(*v),
{
    match v {
        HandlerValue::Literal(s) => {
            let mut t = "Literal(".to_owned();
            let shown = debug_str(s.as_str());
            push_str(&mut t, shown.as_str());
            push_str(&mut t, ")");
            t
        },
        HandlerValue::ResourceUri => "ResourceUri".to_owned(),
        HandlerValue::ResourceName => "ResourceName".to_owned(),
        HandlerValue::NativePath => "NativePath".to_owned(),
        HandlerValue::NativeParent => "NativeParent".to_owned(),
    }
}

/// The message a handler error displays.
pub open spec fn handler_error_text(e: HandlerError) -> Seq<char> {
    match e {
        HandlerError::UnsupportedSchema(v) => "unsupported handler schema version "@
            + crate::text::decimal(v as nat),
        HandlerError::EmptyId => "handler IDs cannot be empty"@,
        HandlerError::DuplicateId(id) => "duplicate handler ID "@ + id@,
        HandlerError::InvalidPredicate(m) => "invalid handler predicate: "@ + m@,
        HandlerError::ContentPredicateUnsupported(id) => "handler "@ + id@
            + " uses a content predicate, which requires resource reads"@,
        HandlerError::NoMatch => "no handler matched the requested action and resource"@,
        HandlerError::MissingValue(v) => "template value "@ + handler_value_debug(v)
            + " is unavailable for this resource"@,
        HandlerError::NonUnicodeShellValue(v) => "shell mode cannot represent non-Unicode value "@
            + handler_value_debug(v),
        HandlerError::UnknownShellPlaceholder(p) => "unknown shell template placeholder "@ + p@,
        HandlerError::InvalidCurrentDirectory => "current-directory template must resolve to a native path"@,
    }
}

impl HandlerError {
    pub fn message(&self) -> (r: String)
        ensures
            r@ == handler_error_text(*self),
    {
        match self {
            HandlerError::UnsupportedSchema(v) => {
                let mut m = "unsupported handler schema version ".to_owned();
                let n = crate::text::u64_decimal(*v as u64);
                push_str(&mut m, n.as_str());
                m
            },
            HandlerError::EmptyId => "handler IDs cannot be empty".to_owned(),
            HandlerError::DuplicateId(id) => {
                let mut m = "duplicate handler ID ".to_owned();
                push_str(&mut m, id.as_str());
                m
            },
            HandlerError::InvalidPredicate(p) => {
                let mut m = "invalid handler predicate: ".to_owned();
                push_str(&mut m, p.as_str());
                m
            },
            HandlerError::ContentPredicateUnsupported(id) => {
                let mut m = "handler ".to_owned();
                push_str(&mut m, id.as_str());
                push_str(&mut m, " uses a content predicate, which requires resource reads");
                m
            },
            HandlerError::NoMatch => "no handler matched the requested action and resource".to_owned(),
            HandlerError::MissingValue(v) => {
                let mut m = "template value ".to_owned();
                let shown = handler_value_text(v);
                push_str(&mut m, shown.as_str());
                push_str(&mut m, " is unavailable for this resource");
                m
            },
            HandlerError::NonUnicodeShellValue(v) => {
                let mut m = "shell mode cannot represent non-Unicode value ".to_owned();
                let shown = handler_value_text(v);
                push_str(&mut m, shown.as_str());
                m
            },
            HandlerError::UnknownShellPlaceholder(p) => {
                let mut m = "unknown shell template placeholder ".to_owned();
                push_str(&mut m, p.as_str());
                m
            },
            HandlerError::InvalidCurrentDirectory => "current-directory template must resolve to a native path".to_owned(),
        }
    }
}

/// What a template value gives for a resource.
pub open spec fn value_for(v: HandlerValue, c: HandlerContext) -> Result<NativePathView, HandlerError> {
    match v {
        HandlerValue::Literal(s) => Ok(native_of_text(c.style, s@)),
        HandlerValue::ResourceUri => Ok(native_of_text(c.style, c.resource.location@)),
        HandlerValue::ResourceName => Ok(native_of_text(c.style, c.metadata.name@)),
        HandlerValue::NativePath => match c.native_path {
            Some(p) => Ok(p@),
            None => Err(HandlerError::MissingValue(v)),
        },
        HandlerValue::NativeParent => match c.native_parent {
            Some(p) => Ok(p@),
            None => Err(HandlerError::MissingValue(v)),
        },
    }
}

/// What a current-directory value gives: only native paths are directories.
pub open spec fn directory_for(v: HandlerValue, c: HandlerContext) -> Result<NativePathView, HandlerError> {
    match v {
        HandlerValue::NativePath => value_for(v, c),
        HandlerValue::NativeParent => value_for(v, c),
        _ => Err(HandlerError::InvalidCurrentDirectory),
    }
}

fn render_os(value: &HandlerValue, context: &HandlerContext) -> (r: Result<
    crate::local_fs::NativePath,
    HandlerError,
>)
    ensures
        match value_for(*value, *context) {
            Ok(p) => r matches Ok(x) && x@ == p,
            Err(e) => r == Err::<crate::local_fs::NativePath, HandlerError>(e),
        },
{
    match value {
        HandlerValue::Literal(s) => Ok(native_path_from_text(context.style, s.as_str())),
        HandlerValue::ResourceUri => Ok(
            native_path_from_text(context.style, context.resource.location.as_str()),
        ),
        HandlerValue::ResourceName => Ok(
            native_path_from_text(context.style, context.metadata.name.as_str()),
        ),
        HandlerValue::NativePath => match &context.native_path {
            Some(p) => Ok(p.clone()),
            None => Err(HandlerError::MissingValue(HandlerValue::NativePath)),
        },
        HandlerValue::NativeParent => match &context.native_parent {
            Some(p) => Ok(p.clone()),
            None => Err(HandlerError::MissingValue(HandlerValue::NativeParent)),
        },
    }
}

fn render_path(value: &HandlerValue, context: &HandlerContext) -> (r: Result<
    crate::local_fs::NativePath,
    HandlerError,
>)
    ensures
        match directory_for(*value, *context) {
            Ok(p) => r matches Ok(x) && x@ == p,
            Err(e) => r == Err::<crate::local_fs::NativePath, HandlerError>(e),
        },
{
    match value {
        HandlerValue::NativePath | HandlerValue::NativeParent => render_os(value, context),
        _ => Err(HandlerError::InvalidCurrentDirectory),
    }
}

/// The shell placeholders, in the order they are replaced, with the values they stand for.
pub open spec fn shell_placeholder(k: int) -> (Seq<char>, HandlerValue) {
    if k == 0 {
        ("${resource.uri}"@, HandlerValue::ResourceUri)
    } else if k == 1 {
        ("${resource.name}"@, HandlerValue::ResourceName)
    } else if k == 2 {
        ("${resource.path}"@, HandlerValue::NativePath)
    } else {
        ("${resource.parent}"@, HandlerValue::NativeParent)
    }
}

/// Whether a text holds a non-empty pattern.
pub open spec fn holds(s: Seq<char>, p: Seq<char>) -> bool {
    spec_find(s, p) is Some
}

/// The script after replacing placeholders `k` and later, each one present by the quoted text
/// of its value; a value that is missing or not Unicode stops the rendering.
pub open spec fn shell_steps(rendered: Seq<char>, k: int, c: HandlerContext) -> Result<
    Seq<char>,
    HandlerError,
>
    decreases 4 - k,
{
    if k >= 4 || k < 0 {
        Ok(rendered)
    } else {
        let (ph, v) = shell_placeholder(k);
        if holds(rendered, ph) {
            match value_for(v, c) {
                Err(e) => Err(e),
                Ok(p) => match native_text_of(p) {
                    None => Err(HandlerError::NonUnicodeShellValue(v)),
                    Some(t) => shell_steps(replace_all(rendered, ph, shell_quoted(t)), k + 1, c),
                },
            }
        } else {
            shell_steps(rendered, k + 1, c)
        }
    }
}

/// The first `${…}` left in a text, through its closing brace or to the end.
pub open spec fn leftover_placeholder(r: Seq<char>) -> Option<Seq<char>> {
    match spec_find(r, "${"@) {
        Some(start) => {
            let rest = r.skip(start);
            Some(
                match first_index(rest, '}') {
                    Some(k) => rest.take(k + 1),
                    None => rest,
                },
            )
        },
        None => None,
    }
}

/// Why a template cannot be rendered: an error, or a placeholder left unknown.
pub enum HandlerFault {
    Error(HandlerError),
    UnknownPlaceholder(Seq<char>),
}

/// An error that reports a fault.
pub open spec fn fault_matches(e: HandlerError, f: HandlerFault) -> bool {
    match f {
        HandlerFault::Error(x) => e == x,
        HandlerFault::UnknownPlaceholder(u) => e matches HandlerError::UnknownShellPlaceholder(s)
            && s@ == u,
    }
}

/// A rendered shell script, or why it cannot be rendered.
pub open spec fn rendered_script(template: Seq<char>, c: HandlerContext) -> Result<
    Seq<char>,
    HandlerFault,
> {
    match shell_steps(template, 0, c) {
        Err(e) => Err(HandlerFault::Error(e)),
        Ok(r) => match leftover_placeholder(r) {
            Some(u) => Err(HandlerFault::UnknownPlaceholder(u)),
            None => Ok(r),
        },
    }
}

fn contains_text(s: &str, p: &str) -> (r: bool)
    requires
        p@.len() > 0,
    ensures
        r == holds(s@, p@),
{
    let a = chars_of(s);
    let b = chars_of(p);
    crate::text::find(a.as_slice(), b.as_slice()).is_some()
}

fn replace_placeholder(
    rendered: String,
    placeholder: &str,
    value: HandlerValue,
    context: &HandlerContext,
    Ghost(k): Ghost<int>,
) -> (r: Result<String, HandlerError>)
    requires
        0 <= k < 4,
        placeholder@ == shell_placeholder(k).0,
        value == shell_placeholder(k).1,
        placeholder@.len() > 0,
    ensures
        match r {
            Ok(s) => shell_steps(rendered@, k, *context) == shell_steps(s@, k + 1, *context),
            Err(e) => shell_steps(rendered@, k, *context) == Err::<Seq<char>, HandlerError>(e),
        },
{
    if !contains_text(rendered.as_str(), placeholder) {
        return Ok(rendered);
    }
    let os = render_os(&value, context)?;
    let text = match crate::local_fs::native_text(&os) {
        Some(t) => t,
        None => return Err(HandlerError::NonUnicodeShellValue(value)),
    };
    let quoted = crate::local_fs::shell_quote(text.as_str());
    Ok(crate::text::replace_text(rendered.as_str(), placeholder, quoted.as_str()))
}

fn placeholder_at(k: usize) -> (r: (&'static str, HandlerValue))
    requires
        k < 4,
    ensures
        r.0@ == shell_placeholder(k as int).0,
        r.1 == shell_placeholder(k as int).1,
        r.0@.len() > 0,
{
    proof {
        reveal_strlit("${resource.uri}");
        reveal_strlit("${resource.name}");
        reveal_strlit("${resource.path}");
        reveal_strlit("${resource.parent}");
    }
    if k == 0 {
        ("${resource.uri}", HandlerValue::ResourceUri)
    } else if k == 1 {
        ("${resource.name}", HandlerValue::ResourceName)
    } else if k == 2 {
        ("${resource.path}", HandlerValue::NativePath)
    } else {
        ("${resource.parent}", HandlerValue::NativeParent)
    }
}

fn render_shell_script(template: &str, context: &HandlerContext) -> (r: Result<String, HandlerError>)
    ensures
        match rendered_script(template@, *context) {
            Ok(t) => r matches Ok(s) && s@ == t,
            Err(f) => r matches Err(e) && fault_matches(e, f),
        },
{
    let mut rendered = template.to_owned();
    let mut k: usize = 0;
    while k < 4
        invariant
            k <= 4,
            shell_steps(template@, 0, *context) == shell_steps(rendered@, k as int, *context),
        decreases 4 - k,
    {
        let (placeholder, value) = placeholder_at(k);
        match replace_placeholder(rendered, placeholder, value, context, Ghost(k as int)) {
            Ok(next) => {
                rendered = next;
            },
            Err(e) => {
                return Err(e);
            },
        }
        k = k + 1;
    }
    proof {
        reveal_strlit("${");
    }
    let chars = chars_of(rendered.as_str());
    let marker = chars_of("${");
    match crate::text::find(chars.as_slice(), marker.as_slice()) {
        Some(start) => {
            proof {
                let j = choose|j: int|
                    crate::text::occurs_at(rendered@, "${"@, j) && forall|q: int|
                        0 <= q < j ==> !crate::text::occurs_at(rendered@, "${"@, q);
                assert(j == start) by {
                    if j < start {
                        assert(!crate::text::occurs_at(rendered@, "${"@, j));
                    }
                    if start < j {
                        assert(!crate::text::occurs_at(rendered@, "${"@, start as int));
                    }
                }
            }
            let rest = crate::text::slice_chars(chars.as_slice(), start, chars.len());
            assert(rest@ =~= rendered@.skip(start as int));
            let unknown = match crate::config_text::first_index_of(rest.as_slice(), '}') {
                Some(q) => crate::text::slice_chars(rest.as_slice(), 0, q + 1),
                None => rest,
            };
            Err(HandlerError::UnknownShellPlaceholder(crate::text::string_of(unknown.as_slice())))
        },
        None => Ok(rendered),
    }
}

/// The shape of an invocation: everything about it that the templates decide.
pub struct InvocationShape {
    pub mode: ExternalInvocationMode,
    pub program: NativePathView,
    pub arguments: Seq<NativePathView>,
    pub current_directory: Option<NativePathView>,
    pub cleanup_paths: Seq<NativePathView>,
}

/// An invocation with the given shape.
pub open spec fn shaped(i: ExternalInvocation, s: InvocationShape) -> bool {
    &&& i.mode == s.mode
    &&& i.program@ == s.program
    &&& native_views(i.arguments@) == s.arguments
    &&& match s.current_directory {
        Some(d) => i.current_directory matches Some(x) && x@ == d,
        None => i.current_directory is None,
    }
    &&& native_views(i.cleanup_paths@) == s.cleanup_paths
}

/// An error as a fault.
pub open spec fn as_fault<T>(r: Result<T, HandlerError>) -> Result<T, HandlerFault> {
    match r {
        Ok(v) => Ok(v),
        Err(e) => Err(HandlerFault::Error(e)),
    }
}

/// The values of template arguments, or the first that is unavailable.
pub open spec fn rendered_arguments(args: Seq<HandlerValue>, c: HandlerContext) -> Result<
    Seq<NativePathView>,
    HandlerError,
>
    decreases args.len(),
{
    if args.len() == 0 {
        Ok(Seq::empty())
    } else {
        match rendered_arguments(args.drop_last(), c) {
            Err(e) => Err(e),
            Ok(front) => match value_for(args.last(), c) {
                Err(e) => Err(e),
                Ok(v) => Ok(front.push(v)),
            },
        }
    }
}

/// What an optional working-directory template gives.
pub open spec fn rendered_directory(d: Option<HandlerValue>, c: HandlerContext) -> Result<
    Option<NativePathView>,
    HandlerError,
> {
    match d {
        None => Ok(None),
        Some(v) => match directory_for(v, c) {
            Ok(p) => Ok(Some(p)),
            Err(e) => Err(e),
        },
    }
}

/// The invocation a template renders for a resource: arguments first, then the working
/// directory; a shell template renders its script first.
pub open spec fn rendered_invocation(t: HandlerInvocationTemplate, c: HandlerContext) -> Result<
    InvocationShape,
    HandlerFault,
> {
    match t {
        HandlerInvocationTemplate::Argv { program, arguments, current_directory } => match rendered_arguments(
            arguments@,
            c,
        ) {
            Err(e) => Err(HandlerFault::Error(e)),
            Ok(args) => match rendered_directory(current_directory, c) {
                Err(e) => Err(HandlerFault::Error(e)),
                Ok(d) => Ok(
                    InvocationShape {
                        mode: ExternalInvocationMode::StructuredArgv,
                        program: native_of_text(c.style, program@),
                        arguments: args,
                        current_directory: d,
                        cleanup_paths: Seq::empty(),
                    },
                ),
            },
        },
        HandlerInvocationTemplate::Shell { shell, script, current_directory } => match rendered_script(
            script@,
            c,
        ) {
            Err(e) => Err(e),
            Ok(text) => match rendered_directory(current_directory, c) {
                Err(e) => Err(HandlerFault::Error(e)),
                Ok(d) => Ok(
                    InvocationShape {
                        mode: ExternalInvocationMode::ExplicitShell,
                        program: native_of_text(c.style, shell@),
                        arguments: seq![native_of_text(c.style, "-lc"@), native_of_text(c.style, text)],
                        current_directory: d,
                        cleanup_paths: Seq::empty(),
                    },
                ),
            },
        },
    }
}

/// The result of rendering matches the rendered shape or error.
pub open spec fn render_matches(
    r: Result<ExternalInvocation, HandlerError>,
    expected: Result<InvocationShape, HandlerFault>,
) -> bool {
    match expected {
        Ok(s) => r matches Ok(i) && shaped(i, s),
        Err(f) => r matches Err(e) && fault_matches(e, f),
    }
}

fn render_arguments(args: &Vec<HandlerValue>, context: &HandlerContext) -> (r: Result<
    Vec<crate::local_fs::NativePath>,
    HandlerError,
>)
    ensures
        match rendered_arguments(args@, *context) {
            Ok(v) => r matches Ok(x) && native_views(x@) == v,
            Err(e) => r == Err::<Vec<crate::local_fs::NativePath>, HandlerError>(e),
        },
{
    let mut out: Vec<crate::local_fs::NativePath> = Vec::new();
    let mut i: usize = 0;
    assert(args@.take(0) =~= Seq::<HandlerValue>::empty());
    assert(native_views(out@) =~= Seq::<NativePathView>::empty());
    while i < args.len()
        invariant
            i <= args@.len(),
            rendered_arguments(args@.take(i as int), *context) == Ok::<
                Seq<NativePathView>,
                HandlerError,
            >(native_views(out@)),
        decreases args@.len() - i,
    {
        assert(args@.take(i + 1).drop_last() =~= args@.take(i as int));
        let v = render_os(&args[i], context);
        match v {
            Ok(p) => {
                let ghost before = native_views(out@);
                out.push(p);
                assert(native_views(out@) =~= before.push(p@));
            },
            Err(e) => {
                proof {
                    lemma_rendered_arguments_error(args@, *context, i as int);
                }
                return Err(e);
            },
        }
        i = i + 1;
    }
    assert(args@.take(args@.len() as int) =~= args@);
    Ok(out)
}

proof fn lemma_rendered_arguments_error(args: Seq<HandlerValue>, c: HandlerContext, i: int)
    requires
        0 <= i < args.len(),
        rendered_arguments(args.take(i), c) is Ok,
        value_for(args[i], c) is Err,
    ensures
        rendered_arguments(args, c) == Err::<Seq<NativePathView>, HandlerError>(
            value_for(args[i], c)->Err_0,
        ),
    decreases args.len() - i,
{
    if i == args.len() - 1 {
        assert(args.drop_last() =~= args.take(i));
    } else {
        assert(args.drop_last().take(i) =~= args.take(i));
        assert(args.drop_last()[i] == args[i]);
        lemma_rendered_arguments_error(args.drop_last(), c, i);
        lemma_rendered_error_extends(args, c);
    }
}

proof fn lemma_rendered_error_extends(args: Seq<HandlerValue>, c: HandlerContext)
    requires
        args.len() > 0,
        rendered_arguments(args.drop_last(), c) is Err,
    ensures
        rendered_arguments(args, c) == rendered_arguments(args.drop_last(), c),
{
}

fn render_directory(d: &Option<HandlerValue>, context: &HandlerContext) -> (r: Result<
    Option<crate::local_fs::NativePath>,
    HandlerError,
>)
    ensures
        match rendered_directory(*d, *context) {
            Ok(None) => r matches Ok(None),
            Ok(Some(p)) => r matches Ok(Some(x)) && x@ == p,
            Err(e) => r == Err::<Option<crate::local_fs::NativePath>, HandlerError>(e),
        },
{
    match d {
        None => Ok(None),
        Some(v) => match render_path(v, context) {
            Ok(p) => Ok(Some(p)),
            Err(e) => Err(e),
        },
    }
}

impl HandlerInvocationTemplate {
    pub fn mode(&self) -> (r: ExternalInvocationMode)
        ensures
            r == (match *self {
                HandlerInvocationTemplate::Argv { .. } => ExternalInvocationMode::StructuredArgv,
                HandlerInvocationTemplate::Shell { .. } => ExternalInvocationMode::ExplicitShell,
            }),
    {
        match self {
            HandlerInvocationTemplate::Argv { .. } => ExternalInvocationMode::StructuredArgv,
            HandlerInvocationTemplate::Shell { .. } => ExternalInvocationMode::ExplicitShell,
        }
    }

    /// Renders the template for a resource.
    pub fn render(&self, context: &HandlerContext) -> (r: Result<ExternalInvocation, HandlerError>)
        ensures
            render_matches(r, rendered_invocation(*self, *context)),
    {
        match self {
            HandlerInvocationTemplate::Argv { program, arguments, current_directory } => {
                let args = render_arguments(arguments, context)?;
                let directory = render_directory(current_directory, context)?;
                let program = native_path_from_text(context.style, program.as_str());
                let mut invocation = ExternalInvocation::new(program);
                invocation = invocation.with_arguments(args);
                assert(native_views(invocation.arguments@) =~= native_views(Seq::empty())
                    + native_views(invocation.arguments@));
                match directory {
                    Some(d) => {
                        invocation = invocation.with_current_directory(d);
                    },
                    None => {},
                }
                assert(native_views(invocation.cleanup_paths@) =~= Seq::<NativePathView>::empty());
                Ok(invocation)
            },
            HandlerInvocationTemplate::Shell { shell, script, current_directory } => {
                let text = render_shell_script(script.as_str(), context)?;
                let directory = render_directory(current_directory, context)?;
                let program = native_path_from_text(context.style, shell.as_str());
                let script_path = native_path_from_text(context.style, text.as_str());
                let mut invocation = ExternalInvocation::explicit_shell(program, script_path);
                assert(crate::local_fs::view_style(script_path@) == context.style) by {
                    match context.style {
                        PathStyle::Unix => {},
                        PathStyle::Windows => {},
                    }
                }
                assert(native_views(invocation.arguments@) =~= seq![
                    native_of_text(context.style, "-lc"@),
                    native_of_text(context.style, text@),
                ]);
                match directory {
                    Some(d) => {
                        invocation = invocation.with_current_directory(d);
                    },
                    None => {},
                }
                assert(native_views(invocation.cleanup_paths@) =~= Seq::<NativePathView>::empty());
                Ok(invocation)
            },
        }
    }
}

/// One handler: the actions it serves and how it starts its tool. Its resource predicate is
/// evaluated by the predicate engine.
#[derive(Clone, Debug, PartialEq, Eq)]
pub struct HandlerRule {
    pub id: String,
    pub actions: Vec<ExternalAction>,
    pub invocation: HandlerInvocationTemplate,
}

/// A versioned list of handlers, in the order they are tried.
#[derive(Clone, Debug, PartialEq, Eq)]
pub struct HandlerDocument {
    pub schema_version: u16,
    pub handlers: Vec<HandlerRule>,
}

/// What can be wrong with the identifiers of a rule list.
pub enum IdProblem {
    Empty,
    Duplicate(Seq<char>),
}

/// The first identifier problem among the first `n` identifiers: a blank identifier, or one
/// that repeats an earlier one.
pub open spec fn id_problem(ids: Seq<Seq<char>>, n: int) -> Option<IdProblem>
    decreases n,
{
    if n <= 0 {
        None
    } else {
        match id_problem(ids, n - 1) {
            Some(p) => Some(p),
            None => if spec_trim(ids[n - 1]).len() == 0 {
                Some(IdProblem::Empty)
            } else if ids.take(n - 1).contains(ids[n - 1]) {
                Some(IdProblem::Duplicate(ids[n - 1]))
            } else {
                None
            },
        }
    }
}

/// The identifiers of rules.
pub open spec fn rule_ids(rules: Seq<HandlerRule>) -> Seq<Seq<char>> {
    Seq::new(rules.len(), |i: int| rules[i].id@)
}

/// An error that reports an identifier problem.
pub open spec fn reports_id_problem(e: HandlerError, p: IdProblem) -> bool {
    match p {
        IdProblem::Empty => e == HandlerError::EmptyId,
        IdProblem::Duplicate(id) => e matches HandlerError::DuplicateId(s) && s@ == id,
    }
}

/// Finds the first identifier problem of a rule list.
fn find_id_problem(rules: &Vec<HandlerRule>) -> (r: Option<HandlerError>)
    ensures
        match id_problem(rule_ids(rules@), rules@.len() as int) {
            None => r is None,
            Some(p) => r matches Some(e) && reports_id_problem(e, p),
        },
{
    let ghost ids = rule_ids(rules@);
    let mut i: usize = 0;
    while i < rules.len()
        invariant
            i <= rules@.len(),
            ids == rule_ids(rules@),
            id_problem(ids, i as int) is None,
        decreases rules@.len() - i,
    {
        if crate::text::trim_is_empty(rules[i].id.as_str()) {
            proof {
                lemma_id_problem_stays(ids, i + 1, rules@.len() as int);
            }
            return Some(HandlerError::EmptyId);
        }
        assert(spec_trim(ids[i as int]).len() > 0);
        let mut j: usize = 0;
        while j < i
            invariant
                j <= i < rules@.len(),
                ids == rule_ids(rules@),
                id_problem(ids, i as int) is None,
                spec_trim(ids[i as int]).len() > 0,
                forall|q: int| 0 <= q < j ==> ids[q] != ids[i as int],
            decreases i - j,
        {
            if crate::text::str_eq(rules[j].id.as_str(), rules[i].id.as_str()) {
                proof {
                    assert(ids.take(i as int)[j as int] == ids[i as int]);
                    lemma_id_problem_stays(ids, i + 1, rules@.len() as int);
                }
                return Some(HandlerError::DuplicateId(rules[i].id.clone()));
            }
            j = j + 1;
        }
        assert(!ids.take(i as int).contains(ids[i as int])) by {
            if ids.take(i as int).contains(ids[i as int]) {
                let q = choose|q: int| 0 <= q < i && ids.take(i as int)[q] == ids[i as int];
                assert(ids[q] == ids[i as int]);
            }
        }
        i = i + 1;
    }
    None
}

proof fn lemma_id_problem_stays(ids: Seq<Seq<char>>, n: int, m: int)
    requires
        0 < n <= m <= ids.len(),
        id_problem(ids, n) is Some,
    ensures
        id_problem(ids, m) == id_problem(ids, n),
    decreases m - n,
{
    if m > n {
        lemma_id_problem_stays(ids, n, m - 1);
    }
}

/// Why a handler document is refused, if it is: its schema, then its identifiers.
pub open spec fn document_problem(d: HandlerDocument) -> Option<HandlerFault> {
    if d.schema_version != HANDLER_SCHEMA_VERSION {
        Some(HandlerFault::Error(HandlerError::UnsupportedSchema(d.schema_version)))
    } else {
        match id_problem(rule_ids(d.handlers@), d.handlers@.len() as int) {
            None => None,
            Some(IdProblem::Empty) => Some(HandlerFault::Error(HandlerError::EmptyId)),
            Some(IdProblem::Duplicate(id)) => Some(HandlerFault::UnknownPlaceholder(id)),
        }
    }
}

/// An error that reports a document problem.
pub open spec fn reports_document_problem(e: HandlerError, p: HandlerFault) -> bool {
    match p {
        HandlerFault::Error(x) => e == x,
        HandlerFault::UnknownPlaceholder(id) => e matches HandlerError::DuplicateId(s) && s@ == id,
    }
}

impl HandlerDocument {
    /// Checks the schema version and that identifiers are present and unique.
    pub fn validate(&self) -> (r: Result<(), HandlerError>)
        ensures
            match document_problem(*self) {
                None => r is Ok,
                Some(p) => r matches Err(e) && reports_document_problem(e, p),
            },
    {
        if self.schema_version != HANDLER_SCHEMA_VERSION {
            return Err(HandlerError::UnsupportedSchema(self.schema_version));
        }
        match find_id_problem(&self.handlers) {
            Some(e) => Err(e),
            None => Ok(()),
        }
    }
}

/// How one rule was judged for a request.
#[derive(Clone, Debug, PartialEq, Eq)]
pub struct RuleDiagnostic {
    pub handler_id: String,
    pub action_matches: bool,
    pub predicate_matches: bool,
    pub selected: bool,
    pub reason: String,
}

/// How every rule was judged for a request, and which one was selected.
#[derive(Clone, Debug, PartialEq, Eq)]
pub struct HandlerDiagnostic {
    pub action: ExternalAction,
    pub resource: ResourceRef,
    pub evaluations: Vec<RuleDiagnostic>,
    pub selected_handler: Option<String>,
}

impl HandlerDiagnostic {
    /// A sentence that explains the selection.
    pub fn explanation(&self) -> (r: String)
        ensures
            r@ == (match self.selected_handler {
                Some(id) => "Selected handler "@ + id@ + " as the first matching rule"@,
                None => "No handler matched the action and resource predicate"@,
            }),
    {
        match &self.selected_handler {
            Some(selected) => {
                let mut m = "Selected handler ".to_owned();
                push_str(&mut m, selected.as_str());
                push_str(&mut m, " as the first matching rule");
                m
            },
            None => "No handler matched the action and resource predicate".to_owned(),
        }
    }
}

/// Whether a rule serves an action.
pub open spec fn serves(rule: HandlerRule, action: ExternalAction) -> bool {
    rule.actions@.contains(action)
}

/// Whether a rule matches a request, given whether its predicate matched.
pub open spec fn rule_matches(rules: Seq<HandlerRule>, action: ExternalAction, pm: Seq<bool>, i: int) -> bool {
    serves(rules[i], action) && pm[i]
}

/// The first matching rule among the first `n`.
pub open spec fn first_matching(rules: Seq<HandlerRule>, action: ExternalAction, pm: Seq<bool>, n: int) -> Option<int>
    decreases n,
{
    if n <= 0 {
        None
    } else {
        match first_matching(rules, action, pm, n - 1) {
            Some(i) => Some(i),
            None => if rule_matches(rules, action, pm, n - 1) {
                Some(n - 1)
            } else {
                None
            },
        }
    }
}

/// The reason shown for one rule.
pub open spec fn rule_reason(action_matches: bool, predicate_matches: bool, selected: bool) -> Seq<char> {
    if !action_matches {
        "action did not match"@
    } else if !predicate_matches {
        "resource predicate did not match"@
    } else if selected {
        "first matching rule"@
    } else {
        "matched after an earlier rule"@
    }
}

/// An evaluation that judges rule `i` for a request.
pub open spec fn evaluation_of(
    d: RuleDiagnostic,
    rules: Seq<HandlerRule>,
    action: ExternalAction,
    pm: Seq<bool>,
    i: int,
) -> bool {
    let selected = first_matching(rules, action, pm, rules.len() as int) == Some(i);
    &&& d.handler_id@ == rules[i].id@
    &&& d.action_matches == serves(rules[i], action)
    &&& d.predicate_matches == pm[i]
    &&& d.selected == selected
    &&& d.reason@ == rule_reason(serves(rules[i], action), pm[i], selected)
}

fn serves_action(rule: &HandlerRule, action: ExternalAction) -> (r: bool)
    ensures
        r == serves(*rule, action),
{
    let mut i: usize = 0;
    while i < rule.actions.len()
        invariant
            i <= rule.actions@.len(),
            forall|j: int| 0 <= j < i ==> rule.actions@[j] != action,
        decreases rule.actions@.len() - i,
    {
        if rule.actions[i] == action {
            return true;
        }
        i = i + 1;
    }
    false
}

proof fn lemma_first_matching_stays(rules: Seq<HandlerRule>, action: ExternalAction, pm: Seq<bool>, n: int, m: int)
    requires
        0 <= n <= m,
        first_matching(rules, action, pm, n) is Some,
    ensures
        first_matching(rules, action, pm, m) == first_matching(rules, action, pm, n),
    decreases m - n,
{
    if m > n {
        lemma_first_matching_stays(rules, action, pm, n, m - 1);
    }
}

proof fn lemma_first_matching_bound(rules: Seq<HandlerRule>, action: ExternalAction, pm: Seq<bool>, n: int)
    ensures
        first_matching(rules, action, pm, n) matches Some(i) ==> 0 <= i < n && rule_matches(
            rules,
            action,
            pm,
            i,
        ),
        first_matching(rules, action, pm, n) is None ==> forall|j: int|
            0 <= j < n ==> !rule_matches(rules, action, pm, j),
    decreases n,
{
    if n > 0 {
        lemma_first_matching_bound(rules, action, pm, n - 1);
    }
}

/// The ordered, validated handler rules.
#[derive(Clone, Debug, PartialEq, Eq)]
pub struct HandlerRegistry {
    rules: Vec<HandlerRule>,
}

impl HandlerRegistry {
    pub closed spec fn spec_rules(&self) -> Seq<HandlerRule> {
        self.rules@
    }

    /// A registry of the rules of a valid document.
    pub fn new(document: HandlerDocument) -> (r: Result<Self, HandlerError>)
        ensures
            match document_problem(document) {
                None => r matches Ok(reg) && reg.spec_rules() == document.handlers@,
                Some(p) => r matches Err(e) && reports_document_problem(e, p),
            },
    {
        document.validate()?;
        Ok(HandlerRegistry { rules: document.handlers })
    }

    /// Judges every rule for a request, given whether each rule's predicate matched the
    /// resource; the first rule that serves the action and matches is selected.
    pub fn diagnose(
        &self,
        action: ExternalAction,
        context: &HandlerContext,
        predicate_matches: &Vec<bool>,
    ) -> (r: HandlerDiagnostic)
        requires
            predicate_matches@.len() == self.spec_rules().len(),
        ensures
            r.action == action,
            r.resource == context.resource,
            r.evaluations@.len() == self.spec_rules().len(),
            forall|i: int|
                0 <= i < self.spec_rules().len() ==> evaluation_of(
                    #[trigger] r.evaluations@[i],
                    self.spec_rules(),
                    action,
                    predicate_matches@,
                    i,
                ),
            match first_matching(
                self.spec_rules(),
                action,
                predicate_matches@,
                self.spec_rules().len() as int,
            ) {
                Some(i) => r.selected_handler matches Some(h) && h@ == self.spec_rules()[i].id@,
                None => r.selected_handler is None,
            },
    {
        let ghost rules = self.rules@;
        let ghost pm = predicate_matches@;
        let ghost total = rules.len() as int;
        let mut evaluations: Vec<RuleDiagnostic> = Vec::new();
        let mut selected: Option<usize> = None;
        let mut i: usize = 0;
        while i < self.rules.len()
            invariant
                i <= rules.len(),
                rules == self.rules@,
                pm == predicate_matches@,
                pm.len() == rules.len(),
                total == rules.len(),
                evaluations@.len() == i,
                selected == (match first_matching(rules, action, pm, i as int) {
                    Some(j) => Some(j as usize),
                    None => None::<usize>,
                }),
                forall|j: int| 0 <= j < i ==> evaluation_of(#[trigger] evaluations@[j], rules, action, pm, j),
            decreases rules.len() - i,
        {
            let rule = &self.rules[i];
            let action_matches = serves_action(rule, action);
            let predicate = predicate_matches[i];
            let this_selected = selected.is_none() && action_matches && predicate;
            proof {
                lemma_first_matching_bound(rules, action, pm, i as int);
                if this_selected {
                    assert(first_matching(rules, action, pm, i + 1) == Some(i as int));
                    lemma_first_matching_stays(rules, action, pm, i + 1, total);
                } else if selected is Some {
                    lemma_first_matching_stays(rules, action, pm, i as int, total);
                    lemma_first_matching_bound(rules, action, pm, i as int);
                } else {
                    assert(first_matching(rules, action, pm, i + 1) is None);
                    lemma_first_matching_bound(rules, action, pm, total);
                    if first_matching(rules, action, pm, total) == Some(i as int) {
                        assert(rule_matches(rules, action, pm, i as int));
                    }
                }
            }
            if this_selected {
                selected = Some(i);
            }
            let reason = if !action_matches {
                "action did not match".to_owned()
            } else if !predicate {
                "resource predicate did not match".to_owned()
            } else if this_selected {
                "first matching rule".to_owned()
            } else {
                "matched after an earlier rule".to_owned()
            };
            let ghost before = evaluations@;
            evaluations.push(
                RuleDiagnostic {
                    handler_id: rule.id.clone(),
                    action_matches,
                    predicate_matches: predicate,
                    selected: this_selected,
                    reason,
                },
            );
            assert forall|j: int| 0 <= j < i + 1 implies evaluation_of(
                #[trigger] evaluations@[j],
                rules,
                action,
                pm,
                j,
            ) by {
                if j < i {
                    assert(evaluations@[j] == before[j]);
                }
            }
            i = i + 1;
        }
        proof {
            lemma_first_matching_bound(rules, action, pm, total);
        }
        let selected_handler = match selected {
            Some(j) => Some(self.rules[j].id.clone()),
            None => None,
        };
        HandlerDiagnostic {
            action,
            resource: context.resource.clone(),
            evaluations,
            selected_handler,
        }
    }
}

/// The first rule with an identifier.
pub open spec fn first_with_id(rules: Seq<HandlerRule>, id: Seq<char>, n: int) -> Option<int>
    decreases n,
{
    if n <= 0 {
        None
    } else {
        match first_with_id(rules, id, n - 1) {
            Some(i) => Some(i),
            None => if rules[n - 1].id@ == id {
                Some(n - 1)
            } else {
                None
            },
        }
    }
}

/// How an invocation mode is named in explanations.
pub open spec fn mode_text(m: ExternalInvocationMode) -> Seq<char> {
    match m {
        ExternalInvocationMode::StructuredArgv => "structured argv"@,
        ExternalInvocationMode::ExplicitShell => "explicit shell"@,
    }
}

/// Resolving a named handler: the first rule with that identifier, when it matches the
/// request, rendered for the resource.
#[verifier::opaque]
pub open spec fn named_outcome(
    rules: Seq<HandlerRule>,
    action: ExternalAction,
    pm: Seq<bool>,
    c: HandlerContext,
    id: Seq<char>,
) -> Result<(int, InvocationShape), HandlerFault> {
    match first_with_id(rules, id, rules.len() as int) {
        None => Err(HandlerFault::Error(HandlerError::NoMatch)),
        Some(i) => if !rule_matches(rules, action, pm, i) {
            Err(HandlerFault::Error(HandlerError::NoMatch))
        } else {
            match rendered_invocation(rules[i].invocation, c) {
                Ok(shape) => Ok((i, shape)),
                Err(f) => Err(f),
            }
        },
    }
}

/// A resolution of rule `i` with a rendered invocation.
pub open spec fn resolution_is(
    r: ExternalResolution,
    rules: Seq<HandlerRule>,
    i: int,
    shape: InvocationShape,
) -> bool {
    &&& shaped(r.invocation, shape)
    &&& r.handler_id@ == rules[i].id@
    &&& r.explanation@ == "Selected matching handler "@ + rules[i].id@
        + " in configured order; invocation mode: "@ + mode_text(shape.mode)
}

/// A result that matches a named outcome.
pub open spec fn named_result_matches(
    r: Result<ExternalResolution, HandlerError>,
    rules: Seq<HandlerRule>,
    outcome: Result<(int, InvocationShape), HandlerFault>,
) -> bool {
    match outcome {
        Ok((i, shape)) => r matches Ok(x) && resolution_is(x, rules, i, shape),
        Err(f) => r matches Err(e) && fault_matches(e, f),
    }
}

/// Indices of the matching rules among the first `n`, in order.
pub open spec fn matching_indices(rules: Seq<HandlerRule>, action: ExternalAction, pm: Seq<bool>, n: int) -> Seq<int>
    decreases n,
{
    if n <= 0 {
        Seq::empty()
    } else {
        let front = matching_indices(rules, action, pm, n - 1);
        if rule_matches(rules, action, pm, n - 1) {
            front.push(n - 1)
        } else {
            front
        }
    }
}

/// The first failing outcome among the named resolutions of the given rules, in order.
pub open spec fn first_failure(
    rules: Seq<HandlerRule>,
    action: ExternalAction,
    pm: Seq<bool>,
    c: HandlerContext,
    idx: Seq<int>,
) -> Option<HandlerFault>
    decreases idx.len(),
{
    if idx.len() == 0 {
        None
    } else {
        match first_failure(rules, action, pm, c, idx.drop_last()) {
            Some(f) => Some(f),
            None => match named_outcome(rules, action, pm, c, rules[idx.last()].id@) {
                Err(f) => Some(f),
                Ok(_) => None,
            },
        }
    }
}

fn mode_name(mode: ExternalInvocationMode) -> (r: &'static str)
    ensures
        r@ == mode_text(mode),
{
    match mode {
        ExternalInvocationMode::StructuredArgv => "structured argv",
        ExternalInvocationMode::ExplicitShell => "explicit shell",
    }
}

proof fn lemma_first_with_id_bound(rules: Seq<HandlerRule>, id: Seq<char>, n: int)
    ensures
        first_with_id(rules, id, n) matches Some(i) ==> 0 <= i < n && rules[i].id@ == id,
    decreases n,
{
    if n > 0 {
        lemma_first_with_id_bound(rules, id, n - 1);
    }
}

proof fn lemma_first_with_id_stays(rules: Seq<HandlerRule>, id: Seq<char>, n: int, m: int)
    requires
        0 <= n <= m,
        first_with_id(rules, id, n) is Some,
    ensures
        first_with_id(rules, id, m) == first_with_id(rules, id, n),
    decreases m - n,
{
    if m > n {
        lemma_first_with_id_stays(rules, id, n, m - 1);
    }
}

fn find_rule(rules: &Vec<HandlerRule>, id: &str) -> (r: Option<usize>)
    ensures
        match first_with_id(rules@, id@, rules@.len() as int) {
            Some(i) => r matches Some(j) && j as int == i,
            None => r is None,
        },
{
    let mut i: usize = 0;
    while i < rules.len()
        invariant
            i <= rules@.len(),
            first_with_id(rules@, id@, i as int) is None,
        decreases rules@.len() - i,
    {
        if crate::text::str_eq(rules[i].id.as_str(), id) {
            proof {
                assert(first_with_id(rules@, id@, i + 1) == Some(i as int));
                lemma_first_with_id_stays(rules@, id@, i + 1, rules@.len() as int);
            }
            return Some(i);
        }
        i = i + 1;
    }
    None
}

impl HandlerRegistry {
    /// Resolves one named handler, when it matches the request.
    #[verifier::rlimit(50)]
    #[verifier::spinoff_prover]
    pub fn resolve_named(
        &self,
        action: ExternalAction,
        context: &HandlerContext,
        predicate_matches: &Vec<bool>,
        handler_id: &str,
    ) -> (r: Result<ExternalResolution, HandlerError>)
        requires
            predicate_matches@.len() == self.spec_rules().len(),
        ensures
            named_result_matches(
                r,
                self.spec_rules(),
                named_outcome(
                    self.spec_rules(),
                    action,
                    predicate_matches@,
                    *context,
                    handler_id@,
                ),
            ),
    {
        let ghost rules = self.rules@;
        proof {
            reveal(named_outcome);
            lemma_first_with_id_bound(rules, handler_id@, rules.len() as int);
        }
        let index = match find_rule(&self.rules, handler_id) {
            Some(j) => j,
            None => {
                return Err(HandlerError::NoMatch);
            },
        };
        let rule = &self.rules[index];
        let ghost outcome = named_outcome(rules, action, predicate_matches@, *context, handler_id@);
        assert(first_with_id(rules, handler_id@, rules.len() as int) == Some(index as int));
        if !(serves_action(rule, action) && predicate_matches[index]) {
            assert(!rule_matches(rules, action, predicate_matches@, index as int));
            assert(outcome == Err::<(int, InvocationShape), HandlerFault>(HandlerFault::Error(HandlerError::NoMatch)));
            return Err(HandlerError::NoMatch);
        }
        assert(rule_matches(rules, action, predicate_matches@, index as int));
        let rendered = rule.invocation.render(context);
        assert(outcome == match rendered_invocation(rules[index as int].invocation, *context) {
            Ok(shape) => Ok((index as int, shape)),
            Err(f) => Err(f),
        });
        let invocation = match rendered {
            Ok(i) => i,
            Err(e) => {
                return Err(e);
            },
        };
        let mode = mode_name(invocation.mode);
        let mut explanation = "Selected matching handler ".to_owned();
        push_str(&mut explanation, rule.id.as_str());
        push_str(&mut explanation, " in configured order; invocation mode: ");
        push_str(&mut explanation, mode);
        Ok(ExternalResolution { invocation, handler_id: rule.id.clone(), explanation })
    }

    /// Selects the first matching rule and renders its invocation.
    pub fn resolve(
        &self,
        action: ExternalAction,
        context: &HandlerContext,
        predicate_matches: &Vec<bool>,
    ) -> (r: Result<ExternalResolution, HandlerError>)
        requires
            predicate_matches@.len() == self.spec_rules().len(),
        ensures
            match first_matching(
                self.spec_rules(),
                action,
                predicate_matches@,
                self.spec_rules().len() as int,
            ) {
                None => r == Err::<ExternalResolution, HandlerError>(HandlerError::NoMatch),
                Some(i) => named_result_matches(
                    r,
                    self.spec_rules(),
                    named_outcome(
                        self.spec_rules(),
                        action,
                        predicate_matches@,
                        *context,
                        self.spec_rules()[i].id@,
                    ),
                ),
            },
    {
        let diagnostic = self.diagnose(action, context, predicate_matches);
        match &diagnostic.selected_handler {
            None => Err(HandlerError::NoMatch),
            Some(selected) => self.resolve_named(action, context, predicate_matches, selected.as_str()),
        }
    }

    /// Resolves every matching handler, in configured order.
    pub fn resolve_all(
        &self,
        action: ExternalAction,
        context: &HandlerContext,
        predicate_matches: &Vec<bool>,
    ) -> (r: Result<Vec<ExternalResolution>, HandlerError>)
        requires
            predicate_matches@.len() == self.spec_rules().len(),
        ensures
            ({
                let rules = self.spec_rules();
                let idx = matching_indices(rules, action, predicate_matches@, rules.len() as int);
                if idx.len() == 0 {
                    r == Err::<Vec<ExternalResolution>, HandlerError>(HandlerError::NoMatch)
                } else {
                    match first_failure(rules, action, predicate_matches@, *context, idx) {
                        Some(f) => r matches Err(e) && fault_matches(e, f),
                        None => r matches Ok(v) && v@.len() == idx.len() && forall|k: int|
                            0 <= k < idx.len() ==> named_result_matches(
                                Ok(#[trigger] v@[k]),
                                rules,
                                named_outcome(
                                    rules,
                                    action,
                                    predicate_matches@,
                                    *context,
                                    rules[idx[k]].id@,
                                ),
                            ),
                    }
                }
            }),
    {
        let ghost rules = self.rules@;
        let ghost pm = predicate_matches@;
        let diagnostic = self.diagnose(action, context, predicate_matches);
        let mut ids: Vec<usize> = Vec::new();
        let mut i: usize = 0;
        while i < diagnostic.evaluations.len()
            invariant
                i <= rules.len(),
                diagnostic.evaluations@.len() == rules.len(),
                rules == self.rules@,
                pm == predicate_matches@,
                forall|j: int|
                    0 <= j < rules.len() ==> evaluation_of(
                        #[trigger] diagnostic.evaluations@[j],
                        rules,
                        action,
                        pm,
                        j,
                    ),
                ids@.map_values(|x: usize| x as int) == matching_indices(rules, action, pm, i as int),
                forall|k: int| 0 <= k < ids@.len() ==> ids@[k] < rules.len(),
            decreases rules.len() - i,
        {
            let evaluation = &diagnostic.evaluations[i];
            assert(evaluation_of(diagnostic.evaluations@[i as int], rules, action, pm, i as int));
            if evaluation.action_matches && evaluation.predicate_matches {
                let ghost before = ids@;
                ids.push(i);
                assert(ids@.map_values(|x: usize| x as int) =~= before.map_values(|x: usize| x as int).push(i as int));
            }
            i = i + 1;
        }
        if ids.len() == 0 {
            return Err(HandlerError::NoMatch);
        }
        let ghost idx = matching_indices(rules, action, pm, rules.len() as int);
        let mut out: Vec<ExternalResolution> = Vec::new();
        let mut k: usize = 0;
        while k < ids.len()
            invariant
                k <= ids@.len(),
                rules == self.rules@,
                pm == predicate_matches@,
                pm.len() == rules.len(),
                idx == matching_indices(rules, action, pm, rules.len() as int),
                ids@.map_values(|x: usize| x as int) == idx,
                forall|q: int| 0 <= q < ids@.len() ==> ids@[q] < rules.len(),
                out@.len() == k,
                first_failure(rules, action, pm, *context, idx.take(k as int)) is None,
                forall|q: int|
                    0 <= q < k ==> named_result_matches(
                        Ok(#[trigger] out@[q]),
                        rules,
                        named_outcome(rules, action, pm, *context, rules[idx[q]].id@),
                    ),
            decreases ids@.len() - k,
        {
            let index = ids[k];
            assert(idx[k as int] == index as int);
            assert(idx.take(k + 1).drop_last() =~= idx.take(k as int));
            let resolution = self.resolve_named(
                action,
                context,
                predicate_matches,
                self.rules[index].id.as_str(),
            );
            match resolution {
                Ok(x) => {
                    let ghost before = out@;
                    out.push(x);
                    assert forall|q: int|
                        0 <= q < k + 1 implies named_result_matches(
                        Ok(#[trigger] out@[q]),
                        rules,
                        named_outcome(rules, action, pm, *context, rules[idx[q]].id@),
                    ) by {
                        if q < k {
                            assert(out@[q] == before[q]);
                        }
                    }
                },
                Err(e) => {
                    proof {
                        let t = idx.take(k + 1);
                        assert(t.drop_last() =~= idx.take(k as int));
                        assert(t.last() == idx[k as int]);
                        let outcome = named_outcome(rules, action, pm, *context, rules[idx[k as int]].id@);
                        assert(outcome is Err);
                        assert(fault_matches(e, outcome->Err_0));
                        assert(first_failure(rules, action, pm, *context, t) == Some(outcome->Err_0));
                        lemma_first_failure_stays(rules, action, pm, *context, idx, k as int + 1);
                        assert(first_failure(rules, action, pm, *context, idx) == Some(outcome->Err_0));
                        assert(idx.len() > 0);
                    }
                    return Err(e);
                },
            }
            k = k + 1;
        }
        assert(idx.take(ids@.len() as int) =~= idx);
        Ok(out)
    }
}

proof fn lemma_first_failure_stays(
    rules: Seq<HandlerRule>,
    action: ExternalAction,
    pm: Seq<bool>,
    c: HandlerContext,
    idx: Seq<int>,
    n: int,
)
    requires
        0 < n <= idx.len(),
        first_failure(rules, action, pm, c, idx.take(n)) is Some,
    ensures
        first_failure(rules, action, pm, c, idx) == first_failure(rules, action, pm, c, idx.take(n)),
    decreases idx.len() - n,
{
    if n < idx.len() {
        assert(idx.drop_last().take(n) =~= idx.take(n));
        lemma_first_failure_stays(rules, action, pm, c, idx.drop_last(), n);
    } else {
        assert(idx.take(n) =~= idx);
    }
}


/// The `ResourceName` value gives the resource's name, whatever its location: it renders as
/// the literal text of the metadata name would, a context that differs only in the resource's
/// location gives the same, and on Unix the rendered bytes read back as the name.
pub proof fn law_resource_name_is_the_name(c: HandlerContext, other: crate::resource::Location)
    ensures
        value_for(HandlerValue::ResourceName, c) == value_for(HandlerValue::Literal(c.metadata.name), c),
        value_for(
            HandlerValue::ResourceName,
            HandlerContext { resource: ResourceRef { location: other, ..c.resource }, ..c },
        ) == value_for(HandlerValue::ResourceName, c),
        c.style == PathStyle::Unix ==> (value_for(HandlerValue::ResourceName, c) matches Ok(p)
            && crate::local_fs::native_text_of(p) == Some(c.metadata.name@)),
{
    let t = c.metadata.name@;
    vstd::utf8::encode_utf8_valid_utf8(t);
    vstd::utf8::encode_utf8_decode_utf8(t);
}

} // verus!
