//! Command templates that apply a shell command to the selected resources.

use vstd::prelude::*;

use crate::text::{chars_of, push_str, spec_trim, string_of};

verus! {

broadcast use vstd::string::group_string_axioms;

#[derive(Clone, Copy, Debug, PartialEq, Eq, Structural)]
pub enum ApplyCommandMode {
    Sequential,
    Batch,
}

impl Default for ApplyCommandMode {
    fn default() -> (r: Self)
        ensures
            r == ApplyCommandMode::Sequential,
    {
        ApplyCommandMode::Sequential
    }
}

/// One resource to which a template applies: its label and its pre-quoted arguments.
#[derive(Clone, Debug, PartialEq, Eq)]
pub struct ApplyCommandTarget {
    pub label: String,
    pub resource_argument: String,
    pub name_argument: String,
}

#[derive(Debug, PartialEq, Eq)]
enum TemplateSegment {
    Literal(String),
    Resource,
    Resources,
    Name,
    Panel,
}

/// The mathematical form of a template segment.
pub enum Segment {
    Literal(Seq<char>),
    Resource,
    Resources,
    Name,
    Panel,
}

/// The mathematical form of a template error.
pub enum TemplateFault {
    Empty,
    Unclosed,
    Unknown(Seq<char>),
}

/// A parsed command template.
#[derive(Debug, PartialEq, Eq)]
pub struct ApplyCommandTemplate {
    source: String,
    segments: Vec<TemplateSegment>,
}

#[derive(Clone, Debug, PartialEq, Eq)]
pub enum ApplyCommandTemplateError {
    Empty,
    UnclosedPlaceholder,
    UnknownPlaceholder(String),
    SequentialPlaceholderInBatch(&'static str),
}

spec fn segment_view(s: TemplateSegment) -> Segment {
    match s {
        TemplateSegment::Literal(v) => Segment::Literal(v@),
        TemplateSegment::Resource => Segment::Resource,
        TemplateSegment::Resources => Segment::Resources,
        TemplateSegment::Name => Segment::Name,
        TemplateSegment::Panel => Segment::Panel,
    }
}

/// The segment a placeholder name stands for.
pub open spec fn placeholder_segment(name: Seq<char>) -> Option<Segment> {
    if name == seq!['r', 'e', 's', 'o', 'u', 'r', 'c', 'e'] {
        Some(Segment::Resource)
    } else if name == seq!['r', 'e', 's', 'o', 'u', 'r', 'c', 'e', 's'] {
        Some(Segment::Resources)
    } else if name == seq!['n', 'a', 'm', 'e'] {
        Some(Segment::Name)
    } else if name == seq!['p', 'a', 'n', 'e', 'l'] {
        Some(Segment::Panel)
    } else {
        None
    }
}

/// Position of the first `}` in `s`.
pub open spec fn first_close(s: Seq<char>) -> Option<int> {
    if exists|i: int| 0 <= i < s.len() && s[i] == '}' {
        Some(choose|i: int| 0 <= i < s.len() && s[i] == '}' && forall|j: int| 0 <= j < i ==> s[j] != '}')
    } else {
        None
    }
}

/// Segments so far with the pending literal flushed.
pub open spec fn flush(segs: Seq<Segment>, lit: Seq<char>) -> Seq<Segment> {
    if lit.len() > 0 {
        segs.push(Segment::Literal(lit))
    } else {
        segs
    }
}

/// Template scanning: `{{` and `}}` are literal braces, `{name}` is a placeholder, anything
/// else is literal text.
#[verifier::opaque]
pub open spec fn scan(rest: Seq<char>, lit: Seq<char>, segs: Seq<Segment>) -> Result<Seq<Segment>, TemplateFault>
    decreases rest.len(),
{
    if rest.len() == 0 {
        Ok(flush(segs, lit))
    } else if rest[0] == '{' && rest.len() > 1 && rest[1] == '{' {
        scan(rest.skip(2), lit.push('{'), segs)
    } else if rest[0] == '}' && rest.len() > 1 && rest[1] == '}' {
        scan(rest.skip(2), lit.push('}'), segs)
    } else if rest[0] == '{' {
        match first_close(rest.skip(1)) {
            None => Err(TemplateFault::Unclosed),
            Some(k) => if 0 <= k && k + 2 <= rest.len() {
                match placeholder_segment(rest.skip(1).take(k)) {
                    None => Err(TemplateFault::Unknown(rest.skip(1).take(k))),
                    Some(seg) => scan(rest.skip(k + 2), Seq::empty(), flush(segs, lit).push(seg)),
                }
            } else {
                Err(TemplateFault::Unclosed)
            },
        }
    } else {
        scan(rest.skip(1), lit.push(rest[0]), segs)
    }
}

proof fn lemma_scan_end(lit: Seq<char>, segs: Seq<Segment>)
    ensures
        scan(Seq::empty(), lit, segs) == Ok::<Seq<Segment>, TemplateFault>(flush(segs, lit)),
{
    reveal(scan);
}

proof fn lemma_scan_brace(rest: Seq<char>, lit: Seq<char>, segs: Seq<Segment>)
    requires
        rest.len() > 1,
        rest[0] == rest[1],
        rest[0] == '{' || rest[0] == '}',
    ensures
        scan(rest, lit, segs) == scan(rest.skip(2), lit.push(rest[0]), segs),
{
    reveal(scan);
}

proof fn lemma_scan_plain(rest: Seq<char>, lit: Seq<char>, segs: Seq<Segment>)
    requires
        rest.len() > 0,
        rest[0] != '{',
        !(rest[0] == '}' && rest.len() > 1 && rest[1] == '}'),
    ensures
        scan(rest, lit, segs) == scan(rest.skip(1), lit.push(rest[0]), segs),
{
    reveal(scan);
}

proof fn lemma_scan_open(rest: Seq<char>, lit: Seq<char>, segs: Seq<Segment>)
    requires
        rest.len() > 0,
        rest[0] == '{',
        !(rest.len() > 1 && rest[1] == '{'),
    ensures
        scan(rest, lit, segs) == match first_close(rest.skip(1)) {
            None => Err(TemplateFault::Unclosed),
            Some(k) => if 0 <= k && k + 2 <= rest.len() {
                match placeholder_segment(rest.skip(1).take(k)) {
                    None => Err(TemplateFault::Unknown(rest.skip(1).take(k))),
                    Some(seg) => scan(rest.skip(k + 2), Seq::empty(), flush(segs, lit).push(seg)),
                }
            } else {
                Err(TemplateFault::Unclosed)
            },
        },
{
    reveal(scan);
}

/// What parsing a template source yields.
pub open spec fn spec_parse(source: Seq<char>) -> Result<Seq<Segment>, TemplateFault> {
    if spec_trim(source).len() == 0 {
        Err(TemplateFault::Empty)
    } else {
        scan(source, Seq::empty(), Seq::empty())
    }
}

/// The text a segment contributes.
pub open spec fn segment_text(
    s: Segment,
    resource: Seq<char>,
    resources: Seq<char>,
    name: Seq<char>,
    panel: Seq<char>,
) -> Seq<char> {
    match s {
        Segment::Literal(v) => v,
        Segment::Resource => resource,
        Segment::Resources => resources,
        Segment::Name => name,
        Segment::Panel => panel,
    }
}

/// Rendering of a segment list.
pub open spec fn spec_render(
    segs: Seq<Segment>,
    resource: Seq<char>,
    resources: Seq<char>,
    name: Seq<char>,
    panel: Seq<char>,
) -> Seq<char>
    decreases segs.len(),
{
    if segs.len() == 0 {
        Seq::empty()
    } else {
        spec_render(segs.drop_last(), resource, resources, name, panel) + segment_text(
            segs.last(),
            resource,
            resources,
            name,
            panel,
        )
    }
}

/// Resource arguments joined by single spaces.
pub open spec fn join_resources(targets: Seq<ApplyCommandTarget>) -> Seq<char>
    decreases targets.len(),
{
    if targets.len() == 0 {
        Seq::empty()
    } else if targets.len() == 1 {
        targets[0].resource_argument@
    } else {
        join_resources(targets.drop_last()) + seq![' '] + targets.last().resource_argument@
    }
}

/// The first per-resource placeholder of a segment list, if any.
pub open spec fn first_per_item(segs: Seq<Segment>) -> Option<Segment>
    decreases segs.len(),
{
    if segs.len() == 0 {
        None
    } else {
        match segs[0] {
            Segment::Resource => Some(Segment::Resource),
            Segment::Name => Some(Segment::Name),
            _ => first_per_item(segs.drop_first()),
        }
    }
}

proof fn lemma_first_per_item_prefix(segs: Seq<Segment>, i: int)
    requires
        0 <= i < segs.len(),
        forall|j: int| 0 <= j < i ==> !(segs[j] is Resource) && !(segs[j] is Name),
    ensures
        (segs[i] is Resource || segs[i] is Name) ==> first_per_item(segs) == Some(segs[i]),
        !(segs[i] is Resource) && !(segs[i] is Name) && i == segs.len() - 1 ==> first_per_item(
            segs,
        ) is None,
    decreases i,
{
    if i > 0 {
        assert(!(segs[0] is Resource) && !(segs[0] is Name));
        assert forall|j: int| 0 <= j < i - 1 implies !(segs.drop_first()[j] is Resource) && !(
        segs.drop_first()[j] is Name) by {
            assert(segs.drop_first()[j] == segs[j + 1]);
        }
        assert(segs.drop_first()[i - 1] == segs[i]);
        lemma_first_per_item_prefix(segs.drop_first(), i - 1);
        assert(first_per_item(segs) == first_per_item(segs.drop_first()));
    } else {
        if i == segs.len() - 1 && !(segs[0] is Resource) && !(segs[0] is Name) {
            assert(segs.drop_first().len() == 0);
            assert(first_per_item(segs.drop_first()) is None);
        }
    }
}

/// The characters `start..end` of a char vector.
fn take_range(chars: &Vec<char>, start: usize, end: usize) -> (r: String)
    requires
        start <= end <= chars@.len(),
    ensures
        r@ == chars@.subrange(start as int, end as int),
{
    let v = crate::text::slice_chars(chars.as_slice(), start, end);
    string_of(v.as_slice())
}

/// Placeholder lookup by name.
fn placeholder_of(name: &Vec<char>) -> (r: Option<TemplateSegment>)
    ensures
        match r {
            None => placeholder_segment(name@) is None,
            Some(s) => placeholder_segment(name@) == Some(segment_view(s)) && !(s is Literal),
        },
{
    let resource: [char; 8] = ['r', 'e', 's', 'o', 'u', 'r', 'c', 'e'];
    let resources: [char; 9] = ['r', 'e', 's', 'o', 'u', 'r', 'c', 'e', 's'];
    let name_: [char; 4] = ['n', 'a', 'm', 'e'];
    let panel: [char; 5] = ['p', 'a', 'n', 'e', 'l'];
    assert(resource@ =~= seq!['r', 'e', 's', 'o', 'u', 'r', 'c', 'e']);
    assert(resources@ =~= seq!['r', 'e', 's', 'o', 'u', 'r', 'c', 'e', 's']);
    assert(name_@ =~= seq!['n', 'a', 'm', 'e']);
    assert(panel@ =~= seq!['p', 'a', 'n', 'e', 'l']);
    if crate::text::chars_eq(name.as_slice(), &resource) {
        Some(TemplateSegment::Resource)
    } else if crate::text::chars_eq(name.as_slice(), &resources) {
        Some(TemplateSegment::Resources)
    } else if crate::text::chars_eq(name.as_slice(), &name_) {
        Some(TemplateSegment::Name)
    } else if crate::text::chars_eq(name.as_slice(), &panel) {
        Some(TemplateSegment::Panel)
    } else {
        None
    }
}

/// Reads the placeholder that starts with the `{` at position `i`.
fn read_placeholder(chars: &Vec<char>, i: usize) -> (r: Result<(TemplateSegment, usize), ApplyCommandTemplateError>)
    requires
        i < chars.len(),
        chars@[i as int] == '{',
    ensures
        match first_close(chars@.skip(i + 1)) {
            None => r == Err::<(TemplateSegment, usize), ApplyCommandTemplateError>(ApplyCommandTemplateError::UnclosedPlaceholder),
            Some(k) => 0 <= k && i + k + 2 <= chars@.len() && match placeholder_segment(chars@.skip(i + 1).take(k)) {
                None => r matches Err(ApplyCommandTemplateError::UnknownPlaceholder(n)) && n@ == chars@.skip(i + 1).take(k),
                Some(seg) => r matches Ok((s, next)) && segment_view(s) == seg && next == i + k + 2 && !(s is Literal),
            },
        },
{
    let ghost tail = chars@.skip(i + 1);
    let mut j = i + 1;
    while j < chars.len() && chars[j] != '}'
        invariant
            i + 1 <= j <= chars@.len(),
            forall|k: int| i + 1 <= k < j ==> chars@[k] != '}',
        decreases chars@.len() - j,
    {
        j = j + 1;
    }
    if j == chars.len() {
        proof {
            assert forall|k: int| 0 <= k < tail.len() implies tail[k] != '}' by {
                assert(tail[k] == chars@[i + 1 + k]);
            }
        }
        return Err(ApplyCommandTemplateError::UnclosedPlaceholder);
    }
    let ghost k = (j - i - 1) as int;
    proof {
        assert(tail[k] == chars@[j as int]);
        assert forall|m: int| 0 <= m < k implies tail[m] != '}' by {
            assert(tail[m] == chars@[i + 1 + m]);
        }
        let c = choose|c: int| 0 <= c < tail.len() && tail[c] == '}' && forall|m: int| 0 <= m < c ==> tail[m] != '}';
        if c < k { } else if c > k { }
        assert(first_close(tail) == Some(k));
    }
    let name = crate::text::slice_chars(chars.as_slice(), i + 1, j);
    assert(name@ =~= tail.take(k));
    match placeholder_of(&name) {
        None => Err(ApplyCommandTemplateError::UnknownPlaceholder(string_of(name.as_slice()))),
        Some(seg) => Ok((seg, j + 1)),
    }
}

spec fn segs_view(v: Seq<TemplateSegment>) -> Seq<Segment> {
    v.map_values(|s: TemplateSegment| segment_view(s))
}

impl ApplyCommandTemplate {
    #[verifier::type_invariant]
    spec fn parsed(&self) -> bool {
        spec_parse(self.source@) == Ok::<Seq<Segment>, TemplateFault>(segs_view(self.segments@))
    }

    /// The source text of the template.
    pub closed spec fn spec_source(&self) -> Seq<char> {
        self.source@
    }

    /// The parsed segments of the template.
    pub closed spec fn spec_segments(&self) -> Seq<Segment> {
        segs_view(self.segments@)
    }

    /// Parses a command template with explicit resource placeholders.
    #[verifier::rlimit(30)]
    pub fn parse(source: String) -> (r: Result<Self, ApplyCommandTemplateError>)
        ensures
            match spec_parse(source@) {
                Ok(segs) => r matches Ok(t) && t.spec_source() == source@ && t.spec_segments()
                    == segs,
                Err(TemplateFault::Empty) => r == Err::<Self, ApplyCommandTemplateError>(
                    ApplyCommandTemplateError::Empty,
                ),
                Err(TemplateFault::Unclosed) => r == Err::<Self, ApplyCommandTemplateError>(
                    ApplyCommandTemplateError::UnclosedPlaceholder,
                ),
                Err(TemplateFault::Unknown(name)) => r matches Err(
                    ApplyCommandTemplateError::UnknownPlaceholder(n),
                ) && n@ == name,
            },
    {
        if crate::text::trim_is_empty(source.as_str()) {
            return Err(ApplyCommandTemplateError::Empty);
        }
        let chars = chars_of(source.as_str());
        let mut segments: Vec<TemplateSegment> = Vec::new();
        let mut literal: Vec<char> = Vec::new();
        let mut i: usize = 0;
        assert(chars@.skip(0) =~= chars@);
        assert(segs_view(segments@) =~= Seq::<Segment>::empty());
        assert(literal@ =~= Seq::<char>::empty());
        while i < chars.len()
            invariant
                i <= chars@.len(),
                chars@ == source@,
                spec_parse(source@) == scan(source@, Seq::empty(), Seq::empty()),
                scan(chars@.skip(i as int), literal@, segs_view(segments@)) == scan(
                    source@,
                    Seq::empty(),
                    Seq::empty(),
                ),
            decreases chars@.len() - i,
        {
            let ghost rest = chars@.skip(i as int);
            let c = chars[i];
            assert(rest[0] == c);
            assert(rest.len() > 1 ==> rest[1] == chars@[i + 1]);
            if c == '{' && i + 1 < chars.len() && chars[i + 1] == '{' {
                proof {
                    lemma_scan_brace(rest, literal@, segs_view(segments@));
                }
                literal.push('{');
                i = i + 2;
                assert(rest.skip(2) =~= chars@.skip(i as int));
            } else if c == '}' && i + 1 < chars.len() && chars[i + 1] == '}' {
                proof {
                    lemma_scan_brace(rest, literal@, segs_view(segments@));
                }
                literal.push('}');
                i = i + 2;
                assert(rest.skip(2) =~= chars@.skip(i as int));
            } else if c == '{' {
                let ghost old_segs = segs_view(segments@);
                let ghost old_lit = literal@;
                assert(rest.skip(1) =~= chars@.skip(i + 1));
                proof {
                    lemma_scan_open(rest, literal@, segs_view(segments@));
                }
                match read_placeholder(&chars, i) {
                    Err(e) => {
                        return Err(e);
                    },
                    Ok((seg, next)) => {
                        if literal.len() > 0 {
                            let text = string_of(literal.as_slice());
                            segments.push(TemplateSegment::Literal(text));
                            literal = Vec::new();
                        }
                        assert(segs_view(segments@) =~= flush(old_segs, old_lit));
                        segments.push(seg);
                        proof {
                            let k = first_close(rest.skip(1))->0;
                            assert(rest.skip(k + 2) =~= chars@.skip(next as int));
                        }
                        i = next;
                        assert(segs_view(segments@) =~= flush(old_segs, old_lit).push(
                            segment_view(seg),
                        ));
                        assert(literal@ =~= Seq::<char>::empty());
                    },
                }
            } else {
                proof {
                    lemma_scan_plain(rest, literal@, segs_view(segments@));
                }
                literal.push(c);
                i = i + 1;
                assert(rest.skip(1) =~= chars@.skip(i as int));
            }
        }
        let ghost before = segs_view(segments@);
        let ghost lit = literal@;
        if literal.len() > 0 {
            let text = string_of(literal.as_slice());
            segments.push(TemplateSegment::Literal(text));
        }
        assert(chars@.skip(i as int) =~= Seq::<char>::empty());
        proof {
            lemma_scan_end(lit, before);
        }
        assert(segs_view(segments@) =~= flush(before, lit));
        Ok(ApplyCommandTemplate { source, segments })
    }

    pub fn source(&self) -> (r: &str)
        ensures
            r@ == self.spec_source(),
    {
        self.source.as_str()
    }

    pub fn has_resources_placeholder(&self) -> (r: bool)
        ensures
            r == exists|i: int| 0 <= i < self.spec_segments().len() && self.spec_segments()[i] is Resources,
    {
        let mut i: usize = 0;
        while i < self.segments.len()
            invariant
                i <= self.segments@.len(),
                forall|j: int| 0 <= j < i ==> !(self.spec_segments()[j] is Resources),
            decreases self.segments@.len() - i,
        {
            match &self.segments[i] {
                TemplateSegment::Resources => {
                    assert(self.spec_segments()[i as int] is Resources);
                    return true;
                },
                _ => {},
            }
            i = i + 1;
        }
        false
    }

    /// Expands the template for one target, substituting its pre-quoted arguments.
    pub fn expand_sequential(&self, target: &ApplyCommandTarget, panel_argument: &str) -> (r:
        String)
        ensures
            r@ == spec_render(
                self.spec_segments(),
                target.resource_argument@,
                target.resource_argument@,
                target.name_argument@,
                panel_argument@,
            ),
    {
        self.render(
            target.resource_argument.as_str(),
            target.resource_argument.as_str(),
            target.name_argument.as_str(),
            panel_argument,
        )
    }

    /// Expands a single batch command using all resource arguments.
    pub fn expand_batch(&self, targets: &[ApplyCommandTarget], panel_argument: &str) -> (r: Result<
        String,
        ApplyCommandTemplateError,
    >)
        ensures
            match first_per_item(self.spec_segments()) {
                Some(Segment::Resource) => r == Err::<String, ApplyCommandTemplateError>(
                    ApplyCommandTemplateError::SequentialPlaceholderInBatch("resource"),
                ),
                Some(Segment::Name) => r == Err::<String, ApplyCommandTemplateError>(
                    ApplyCommandTemplateError::SequentialPlaceholderInBatch("name"),
                ),
                _ => r matches Ok(s) && s@ == spec_render(
                    self.spec_segments(),
                    Seq::empty(),
                    join_resources(targets@),
                    Seq::empty(),
                    panel_argument@,
                ),
            },
    {
        let mut resources = String::new();
        let mut t: usize = 0;
        while t < targets.len()
            invariant
                t <= targets@.len(),
                resources@ == join_resources(targets@.take(t as int)),
            decreases targets@.len() - t,
        {
            if t > 0 {
                crate::text::push_char(&mut resources, ' ');
            }
            push_str(&mut resources, targets[t].resource_argument.as_str());
            t = t + 1;
            assert(targets@.take(t as int).drop_last() =~= targets@.take(t - 1));
        }
        assert(targets@.take(targets@.len() as int) =~= targets@);
        let mut i: usize = 0;
        while i < self.segments.len()
            invariant
                i <= self.segments@.len(),
                forall|j: int|
                    0 <= j < i ==> !(self.spec_segments()[j] is Resource) && !(
                    self.spec_segments()[j] is Name),
            decreases self.segments@.len() - i,
        {
            proof {
                lemma_first_per_item_prefix(self.spec_segments(), i as int);
            }
            match &self.segments[i] {
                TemplateSegment::Resource => {
                    return Err(ApplyCommandTemplateError::SequentialPlaceholderInBatch("resource"));
                },
                TemplateSegment::Name => {
                    return Err(ApplyCommandTemplateError::SequentialPlaceholderInBatch("name"));
                },
                _ => {},
            }
            i = i + 1;
        }
        proof {
            if self.spec_segments().len() > 0 {
                lemma_first_per_item_prefix(
                    self.spec_segments(),
                    self.spec_segments().len() - 1,
                );
            }
        }
        proof {
            reveal_strlit("");
            assert(first_per_item(self.spec_segments()) is None);
        }
        let r = self.render("", resources.as_str(), "", panel_argument);
        assert(""@ =~= Seq::<char>::empty());
        Ok(r)
    }

    fn render(&self, resource: &str, resources: &str, name: &str, panel: &str) -> (r: String)
        ensures
            r@ == spec_render(self.spec_segments(), resource@, resources@, name@, panel@),
    {
        let mut command = String::new();
        let mut i: usize = 0;
        while i < self.segments.len()
            invariant
                i <= self.segments@.len(),
                command@ == spec_render(
                    self.spec_segments().take(i as int),
                    resource@,
                    resources@,
                    name@,
                    panel@,
                ),
            decreases self.segments@.len() - i,
        {
            match &self.segments[i] {
                TemplateSegment::Literal(value) => push_str(&mut command, value.as_str()),
                TemplateSegment::Resource => push_str(&mut command, resource),
                TemplateSegment::Resources => push_str(&mut command, resources),
                TemplateSegment::Name => push_str(&mut command, name),
                TemplateSegment::Panel => push_str(&mut command, panel),
            }
            i = i + 1;
            assert(self.spec_segments().take(i as int).drop_last() =~= self.spec_segments().take(
                i - 1,
            ));
        }
        assert(self.spec_segments().take(i as int) =~= self.spec_segments());
        command
    }
}

} // verus!
