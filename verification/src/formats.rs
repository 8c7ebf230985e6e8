//! Outputs: what a request's rows are written as, and which extension asks for it.

use std::sync::Arc;
use vstd::prelude::*;
use vstd::string::StringSliceAdditionalSpecFns;
use vstd::utf8::encode_utf8;

use crate::ast::{Select, SelectModel, Sql};
use crate::grammar::{Grammar, StageCtx};
use crate::sql::{feature_select, features, PipelineModel, PlanError};
use crate::text::{
    bytes_join, chars_of, lower_spec, lowered, lowered_keeps_bytes, part, same, same_chars,
    string_of, to_lower, views,
};
use crate::url::{ParsedModel, ParsedUrl};

verus! {

/// A format that every grammar has.
#[derive(Debug, Clone, Copy, PartialEq, Eq, Structural)]
pub enum Format {
    GeoJson,
    Json,
}

impl Format {
    pub open spec fn wants_wgs84(self) -> bool {
        true
    }

    /// Whether the geometry must be in longitude and latitude.
    pub fn requires_wgs84(self) -> (r: bool)
        ensures
            r == self.wants_wgs84(),
    {
        match self {
            Format::GeoJson | Format::Json => true,
        }
    }
}

/// What a path says before its extension, the extension, and the format that it asks for.
pub open spec fn format_of(path: Seq<char>) -> Option<(Seq<char>, Seq<char>, Format)> {
    if ends_in(path, "geojson"@) {
        Some((path.take(path.len() - 8), "geojson"@, Format::GeoJson))
    } else if ends_in(path, "json"@) {
        Some((path.take(path.len() - 5), "json"@, Format::Json))
    } else {
        None
    }
}

impl Format {
    /// What a path says before its extension, the extension in lower case, and the format that it
    /// asks for.
    pub fn split(path: &str) -> (r: Option<(String, &'static str, Format)>)
        ensures
            match (r, format_of(path@)) {
                (Some((source, extension, format)), Some(want)) => want == (
                    source@,
                    extension@,
                    format,
                ),
                (None, None) => true,
                _ => false,
            },
    {
        let chars = chars_of(path);
        let lower = chars_of(to_lower(path).as_str());
        proof {
            reveal_strlit("geojson");
            reveal_strlit("json");
        }
        if fits(lower.as_slice(), "geojson", Ghost(path@)) {
            let source = string_of(part(chars.as_slice(), 0, chars.len() - 8));
            assert(source@ =~= path@.take(path@.len() - 8));
            Some((source, "geojson", Format::GeoJson))
        } else if fits(lower.as_slice(), "json", Ghost(path@)) {
            let source = string_of(part(chars.as_slice(), 0, chars.len() - 5));
            assert(source@ =~= path@.take(path@.len() - 5));
            Some((source, "json", Format::Json))
        } else {
            None
        }
    }
}

/// What stands round the rows of an output, and what it asks of them.
#[derive(Debug, Clone, Copy)]
pub struct Framing {
    pub header: &'static str,
    pub separator: &'static str,
    pub footer: &'static str,
    /// The output may share an extension with one that was registered before it.
    pub overrides: bool,
    /// The geometry must be in longitude and latitude.
    pub requires_wgs84: bool,
}

/// What a framing is.
pub struct FramingModel {
    pub header: Seq<char>,
    pub separator: Seq<char>,
    pub footer: Seq<char>,
    pub overrides: bool,
    pub requires_wgs84: bool,
}

impl View for Framing {
    type V = FramingModel;

    open spec fn view(&self) -> FramingModel {
        FramingModel {
            header: self.header@,
            separator: self.separator@,
            footer: self.footer@,
            overrides: self.overrides,
            requires_wgs84: self.requires_wgs84,
        }
    }
}

/// Nothing round the rows, and nothing asked of them.
pub open spec fn no_framing() -> FramingModel {
    FramingModel {
        header: ""@,
        separator: ""@,
        footer: ""@,
        overrides: false,
        requires_wgs84: false,
    }
}

impl Default for Framing {
    /// Nothing round the rows, and nothing asked of them.
    fn default() -> (r: Framing)
        ensures
            r@ == no_framing(),
    {
        Framing { header: "", separator: "", footer: "", overrides: false, requires_wgs84: false }
    }
}

/// Something that rows are written as.
pub trait Output: Send + Sync {
    open spec fn spec_extensions(&self) -> Seq<Seq<char>> {
        arbitrary()
    }

    open spec fn spec_content_type(&self) -> Seq<char> {
        arbitrary()
    }

    open spec fn spec_framing(&self) -> FramingModel {
        arbitrary()
    }

    /// The output is meant for the request.
    open spec fn spec_applies(&self, parsed: ParsedModel) -> bool {
        arbitrary()
    }

    /// The pipeline that the rows are read from and the select that yields them.
    open spec fn selects(&self, p: PipelineModel, step: Seq<char>, parsed: ParsedModel) -> Result<
        (PipelineModel, SelectModel),
        PlanError<Seq<char>>,
    > {
        arbitrary()
    }

    /// The extensions that ask for the output.
    fn extensions(&self) -> (r: Vec<&'static str>)
        ensures
            views(r@) == self.spec_extensions(),
    ;

    /// The media type of the output.
    fn content_type(&self) -> (r: &'static str)
        ensures
            r@ == self.spec_content_type(),
    ;

    /// What stands round the rows, and what is asked of them.
    fn framing(&self) -> (r: Framing)
        ensures
            r@ == self.spec_framing(),
    ;

    /// Whether the output is meant for the request.
    fn applies(&self, parsed: &ParsedUrl) -> (r: bool)
        ensures
            r == self.spec_applies(parsed@),
    ;

    /// The select that yields the rows, one text each.
    fn rows(&self, ctx: &mut StageCtx<'_>, parsed: &ParsedUrl) -> (r: Result<Select, PlanError>)
        requires
            old(ctx).pipeline.wf(),
        ensures
            *final(final(ctx).pipeline) == *final(old(ctx).pipeline),
            final(ctx).action == old(ctx).action,
            match r {
                Ok(select) => final(ctx).pipeline.wf() && select.model().sound() && self.selects(
                    old(ctx).pipeline.model(),
                    old(ctx).action@,
                    parsed@,
                ) == Ok::<_, PlanError<Seq<char>>>((final(ctx).pipeline.model(), select.model())),
                Err(e) => self.selects(
                    old(ctx).pipeline.model(),
                    old(ctx).action@,
                    parsed@,
                ) == Err::<(PipelineModel, SelectModel), _>(e.model()),
            },
    ;

    /// What stands before the rows.
    fn header(&self) -> (r: &'static str)
        ensures
            r@ == self.spec_framing().header,
    {
        self.framing().header
    }

    /// What stands between two rows.
    fn separator(&self) -> (r: &'static str)
        ensures
            r@ == self.spec_framing().separator,
    {
        self.framing().separator
    }

    /// What stands after the rows.
    fn footer(&self) -> (r: &'static str)
        ensures
            r@ == self.spec_framing().footer,
    {
        self.framing().footer
    }

    /// Whether the output may share an extension.
    fn overrides(&self) -> (r: bool)
        ensures
            r == self.spec_framing().overrides,
    {
        self.framing().overrides
    }

    /// Whether the geometry must be in longitude and latitude.
    fn requires_wgs84(&self) -> (r: bool)
        ensures
            r == self.spec_framing().requires_wgs84,
    {
        self.framing().requires_wgs84
    }
}

/// An output as a grammar holds it.
pub struct OutputDef {
    pub output: Box<dyn Output>,
}

impl OutputDef {
    /// Whether two outputs are the same: whether they have the same extensions.
    pub fn same_as(&self, other: &OutputDef) -> (r: bool)
        ensures
            r == (self.output.spec_extensions() == other.output.spec_extensions()),
    {
        let a = self.output.extensions();
        let b = other.output.extensions();
        let ghost x = views(a@);
        let ghost y = views(b@);
        if a.len() != b.len() {
            assert(x.len() != y.len());
            return false;
        }
        let mut i: usize = 0;
        while i < a.len()
            invariant
                i <= a@.len() == b@.len(),
                x == views(a@),
                y == views(b@),
                x == self.output.spec_extensions(),
                y == other.output.spec_extensions(),
                forall|j: int| 0 <= j < i ==> #[trigger] x[j] == y[j],
            decreases a@.len() - i,
        {
            assert(x[i as int] == a@[i as int]@ && y[i as int] == b@[i as int]@);
            if !same(a[i], b[i]) {
                return false;
            }
            i += 1;
        }
        assert(x =~= y);
        true
    }
}

/// GeoJSON, a feature for each row.
pub struct GeoJson;

/// What stands round the features of a collection.
pub open spec fn collection_framing() -> FramingModel {
    FramingModel {
        header: "{\"type\":\"FeatureCollection\",\"features\":["@,
        separator: ","@,
        footer: "]}"@,
        overrides: false,
        requires_wgs84: true,
    }
}

impl Output for GeoJson {
    open spec fn spec_extensions(&self) -> Seq<Seq<char>> {
        seq!["geojson"@, "json"@]
    }

    open spec fn spec_content_type(&self) -> Seq<char> {
        "application/geo+json"@
    }

    open spec fn spec_framing(&self) -> FramingModel {
        collection_framing()
    }

    open spec fn spec_applies(&self, parsed: ParsedModel) -> bool {
        true
    }

    open spec fn selects(&self, p: PipelineModel, step: Seq<char>, parsed: ParsedModel) -> Result<
        (PipelineModel, SelectModel),
        PlanError<Seq<char>>,
    > {
        let done = p.replaced(step, p.backend.dialect.dialect.encoded(Sql::Column(p.geometry)));
        Ok((done, features(done.input, done.geometry)))
    }

    fn extensions(&self) -> Vec<&'static str> {
        let r: Vec<&'static str> = vec!["geojson", "json"];
        assert(views(r@) =~= seq!["geojson"@, "json"@]);
        r
    }

    fn content_type(&self) -> &'static str {
        "application/geo+json"
    }

    fn framing(&self) -> Framing {
        Framing {
            header: "{\"type\":\"FeatureCollection\",\"features\":[",
            separator: ",",
            footer: "]}",
            overrides: false,
            requires_wgs84: true,
        }
    }

    fn applies(&self, parsed: &ParsedUrl) -> bool {
        true
    }

    fn rows(&self, ctx: &mut StageCtx<'_>, parsed: &ParsedUrl) -> Result<Select, PlanError> {
        let encoded = ctx.dialect().dialect.as_geojson(ctx.geom());
        ctx.replace_geometry(encoded);
        Ok(feature_select(ctx.data().as_str(), ctx.geometry()))
    }
}

/// GeoJSON as a grammar holds it.
pub fn geojson() -> (r: OutputDef)
    ensures
        is_geojson(r),
{
    let r = OutputDef { output: Box::new(GeoJson) };
    assert(r.output.spec_extensions() == GeoJson.spec_extensions());
    assert(r.output.spec_content_type() == GeoJson.spec_content_type());
    assert(r.output.spec_framing() == GeoJson.spec_framing());
    assert forall|parsed: ParsedModel| #[trigger] r.output.spec_applies(parsed) by {
        assert(r.output.spec_applies(parsed) == GeoJson.spec_applies(parsed));
    }
    assert forall|p: PipelineModel, step: Seq<char>, parsed: ParsedModel| #[trigger]
        r.output.selects(p, step, parsed) == GeoJson.selects(p, step, parsed) by {}
    r
}

/// `def` is GeoJSON.
pub open spec fn is_geojson(def: OutputDef) -> bool {
    &&& def.output.spec_extensions() == GeoJson.spec_extensions()
    &&& def.output.spec_content_type() == GeoJson.spec_content_type()
    &&& def.output.spec_framing() == GeoJson.spec_framing()
    &&& forall|parsed: ParsedModel| #[trigger] def.output.spec_applies(parsed)
    &&& forall|p: PipelineModel, step: Seq<char>, parsed: ParsedModel| #[trigger]
        def.output.selects(p, step, parsed) == GeoJson.selects(p, step, parsed)
}

// Which output an extension asks for.

/// `segment` ends in a dot and `ext`, upper or lower case aside.
pub open spec fn ends_in(segment: Seq<char>, ext: Seq<char>) -> bool {
    let lower = lowered(segment);
    let n = lower.len() - ext.len();
    n >= 1 && lower.skip(n) == ext && lower[n - 1] == '.'
}

/// `ext` is an extension of one of the first `n` outputs.
pub open spec fn offered(outputs: Seq<Arc<OutputDef>>, n: int, ext: Seq<char>) -> bool {
    exists|i: int| 0 <= i < n && (#[trigger] outputs[i]).output.spec_extensions().contains(ext)
}

/// Whether `segment` ends in a dot and `ext`, where `lower` is the segment in lower case.
pub(crate) fn fits(lower: &[char], ext: &str, segment: Ghost<Seq<char>>) -> (r: bool)
    requires
        lower@ == lowered(segment@),
    ensures
        r == ends_in(segment@, ext@),
{
    let e = chars_of(ext);
    if lower.len() <= e.len() {
        return false;
    }
    let n: usize = lower.len() - e.len();
    assert(lower@.skip(n as int) =~= lower@.subrange(n as int, lower@.len() as int));
    lower[n - 1] == '.' && same_chars(part(lower, n, lower.len()), e.as_slice())
}

/// The longest extension of any output that a segment ends in, and at which byte the dot before
/// it stands.
pub fn split(segment: &str, grammar: &Grammar) -> (r: Option<(usize, &'static str)>)
    ensures
        match r {
            Some((cut, ext)) => {
                &&& offered(grammar.outputs@, grammar.outputs@.len() as int, ext@)
                &&& ends_in(segment@, ext@)
                &&& forall|other: Seq<char>|
                    offered(grammar.outputs@, grammar.outputs@.len() as int, other)
                        && #[trigger] ends_in(segment@, other) ==> other.len() <= ext@.len()
                &&& cut == encode_utf8(segment@.take(segment@.len() - ext@.len() - 1)).len()
            },
            None => forall|other: Seq<char>|
                offered(grammar.outputs@, grammar.outputs@.len() as int, other) ==> !#[trigger]
                    ends_in(segment@, other),
        },
{
    let lower = chars_of(to_lower(segment).as_str());
    let ghost outputs = grammar.outputs@;
    let mut best: Option<&'static str> = None;
    let mut best_len: usize = 0;
    let mut i: usize = 0;
    while i < grammar.outputs.len()
        invariant
            i <= outputs.len(),
            outputs == grammar.outputs@,
            lower@ == lowered(segment@),
            match best {
                Some(ext) => offered(outputs, i as int, ext@) && ends_in(segment@, ext@)
                    && best_len == ext@.len() && forall|other: Seq<char>|
                    offered(outputs, i as int, other) && #[trigger] ends_in(segment@, other)
                        ==> other.len() <= ext@.len(),
                None => forall|other: Seq<char>|
                    offered(outputs, i as int, other) ==> !#[trigger] ends_in(segment@, other),
            },
        decreases outputs.len() - i,
    {
        let exts = grammar.outputs[i].output.extensions();
        let ghost all = views(exts@);
        assert(all == outputs[i as int].output.spec_extensions());
        let mut k: usize = 0;
        assert forall|other: Seq<char>| offered(outputs, i as int, other) implies #[trigger] offered(
            outputs,
            i as int + 1,
            other,
        ) by {}
        while k < exts.len()
            invariant
                k <= exts@.len(),
                i < outputs.len(),
                all == views(exts@),
                all == outputs[i as int].output.spec_extensions(),
                lower@ == lowered(segment@),
                match best {
                    Some(ext) => offered(outputs, i as int + 1, ext@) && ends_in(segment@, ext@)
                        && best_len == ext@.len() && forall|other: Seq<char>|
                        (offered(outputs, i as int, other) || all.take(k as int).contains(other))
                            && #[trigger] ends_in(segment@, other) ==> other.len() <= ext@.len(),
                    None => forall|other: Seq<char>|
                        (offered(outputs, i as int, other) || all.take(k as int).contains(other))
                            ==> !#[trigger] ends_in(segment@, other),
                },
            decreases exts@.len() - k,
        {
            assert(all[k as int] == exts@[k as int]@);
            assert(all.take(k as int + 1) =~= all.take(k as int).push(all[k as int]));
            assert forall|other: Seq<char>| all.take(k as int + 1).contains(other) implies
                #[trigger] all.take(k as int).contains(other) || other == all[k as int] by {
                let seen = all.take(k as int + 1);
                let j = choose|j: int| 0 <= j < seen.len() && seen[j] == other;
                if j < k {
                    assert(all.take(k as int)[j] == other);
                }
            }
            let ext = exts[k];
            if fits(lower.as_slice(), ext, Ghost(segment@)) {
                let n = ext.unicode_len();
                if best.is_none() || n >= best_len {
                    best = Some(ext);
                    best_len = n;
                    assert(outputs[i as int].output.spec_extensions().contains(ext@));
                    assert(offered(outputs, i as int + 1, ext@));
                }
            }
            k += 1;
        }
        proof {
            assert(all.take(k as int) =~= all);
            assert forall|other: Seq<char>| offered(outputs, i as int + 1, other) implies #[trigger]
                offered(outputs, i as int, other) || all.contains(other) by {
                let j = choose|j: int|
                    0 <= j < i + 1 && (#[trigger] outputs[j]).output.spec_extensions().contains(
                        other,
                    );
            }
        }
        i += 1;
    }
    match best {
        Some(ext) => {
            let ghost n = segment@.len() - ext@.len();
            let ghost stem = segment@.take(n - 1);
            let ghost tail = segment@.skip(n);
            proof {
                assert(segment@ =~= stem + seq!['.'] + tail) by {
                    assert(lowered(segment@)[n - 1] == '.');
                    assert(lower_spec(segment@[n - 1]) == '.');
                }
                assert(lowered(tail) =~= ext@) by {
                    assert(lowered(segment@).skip(n) =~= lowered(tail));
                }
                bytes_join(stem + seq!['.'], tail);
                bytes_join(stem, seq!['.']);
                lowered_keeps_bytes(tail);
                assert(seq!['.'].drop_first() =~= Seq::<char>::empty());
                assert(encode_utf8(seq!['.'].drop_first()).len() == 0);
                assert(encode_utf8(seq!['.']).len() == 1);
                assert(encode_utf8(segment@).len() == encode_utf8(stem).len() + 1 + encode_utf8(
                    ext@,
                ).len());
                assert(segment.spec_bytes() == encode_utf8(segment@));
                assert(ext.spec_bytes() == encode_utf8(ext@));
            }
            let whole: usize = segment.as_bytes().len();
            let suffix: usize = ext.as_bytes().len();
            Some((whole - suffix - 1, ext))
        },
        None => None,
    }
}

/// The longest extension of any output that `path` ends in, of those with at most `n` characters.
pub open spec fn longest_offered(
    outputs: Seq<Arc<OutputDef>>,
    path: Seq<char>,
    n: int,
) -> Option<Seq<char>>
    decreases n + 1,
{
    let ext = lowered(path).skip(path.len() - n);
    if n < 0 {
        None
    } else if n <= path.len() && offered(outputs, outputs.len() as int, ext) && ends_in(path, ext) {
        Some(ext)
    } else {
        longest_offered(outputs, path, n - 1)
    }
}

proof fn longest_is_found(
    outputs: Seq<Arc<OutputDef>>,
    path: Seq<char>,
    n: int,
    found: Option<Seq<char>>,
)
    requires
        n <= path.len(),
        match found {
            Some(ext) => {
                &&& ext.len() <= n
                &&& offered(outputs, outputs.len() as int, ext)
                &&& ends_in(path, ext)
                &&& forall|other: Seq<char>|
                    offered(outputs, outputs.len() as int, other) && #[trigger] ends_in(
                        path,
                        other,
                    ) ==> other.len() <= ext.len()
            },
            None => forall|other: Seq<char>|
                offered(outputs, outputs.len() as int, other) ==> !#[trigger] ends_in(path, other),
        },
    ensures
        longest_offered(outputs, path, n) == found,
    decreases n + 1,
{
    if n >= 0 {
        let here = lowered(path).skip(path.len() - n);
        assert(here.len() == n);
        match found {
            Some(ext) => {
                if ext.len() == n {
                    assert(here == ext);
                } else {
                    if offered(outputs, outputs.len() as int, here) {
                        assert(!ends_in(path, here));
                    }
                    longest_is_found(outputs, path, n - 1, found);
                }
            },
            None => {
                if offered(outputs, outputs.len() as int, here) {
                    assert(!ends_in(path, here));
                }
                longest_is_found(outputs, path, n - 1, found);
            },
        }
    }
}

/// What is found is an extension of an output that `path` ends in.
pub proof fn longest_ends(outputs: Seq<Arc<OutputDef>>, path: Seq<char>, n: int)
    ensures
        longest_offered(outputs, path, n) matches Some(ext) ==> ends_in(path, ext) && offered(
            outputs,
            outputs.len() as int,
            ext,
        ),
    decreases n + 1,
{
    if n >= 0 {
        longest_ends(outputs, path, n - 1);
    }
}

/// What a path says before its extension, the extension, and the format that it asks for if that is
/// one that every grammar has. The extension is the longest that the path ends in, of those that
/// every grammar has and those of the outputs.
pub open spec fn asked_of(path: Seq<char>, outputs: Seq<Arc<OutputDef>>) -> Option<
    (Seq<char>, Seq<char>, Option<Format>),
> {
    match (longest_offered(outputs, path, path.len() as int), format_of(path)) {
        (Some(ext), None) => Some((path.take(path.len() - ext.len() - 1), ext, None)),
        (Some(ext), Some((_, own, _))) if own.len() < ext.len() => Some(
            (path.take(path.len() - ext.len() - 1), ext, None),
        ),
        (_, Some((source, own, format))) => Some((source, own, Some(format))),
        (None, None) => None,
    }
}

/// What a path says before its extension, the extension in lower case, and the format that it asks
/// for if that is one that every grammar has.
pub fn asked(path: &str, grammar: &Grammar) -> (r: Option<(String, &'static str, Option<Format>)>)
    ensures
        match (r, asked_of(path@, grammar.outputs@)) {
            (Some((source, extension, format)), Some(want)) => want == (
                source@,
                extension@,
                format,
            ),
            (None, None) => true,
            _ => false,
        },
{
    let registered = split(path, grammar);
    let own = Format::split(path);
    proof {
        longest_is_found(
            grammar.outputs@,
            path@,
            path@.len() as int,
            match registered {
                Some((_, ext)) => Some(ext@),
                None => None,
            },
        );
    }
    let ext = match (&registered, &own) {
        (Some((_, ext)), Some((_, known, _))) => {
            if known.unicode_len() < ext.unicode_len() {
                Some(*ext)
            } else {
                None
            }
        },
        (Some((_, ext)), None) => Some(*ext),
        (None, _) => None,
    };
    match ext {
        Some(ext) => {
            let chars = chars_of(path);
            let n: usize = ext.unicode_len();
            let source = string_of(part(chars.as_slice(), 0, chars.len() - n - 1));
            assert(source@ =~= path@.take(path@.len() - ext@.len() - 1));
            Some((source, ext, None))
        },
        None => match own {
            Some((source, extension, format)) => Some((source, extension, Some(format))),
            None => None,
        },
    }
}

proof fn some_is_longest(outputs: Seq<Arc<OutputDef>>, path: Seq<char>, ext: Seq<char>, n: int)
    requires
        ext.len() <= n <= path.len(),
        offered(outputs, outputs.len() as int, ext),
        ends_in(path, ext),
    ensures
        longest_offered(outputs, path, n) matches Some(longest) && longest.len() >= ext.len(),
    decreases n,
{
    let here = lowered(path).skip(path.len() - n);
    if n == ext.len() {
        assert(here == ext);
    } else if !(offered(outputs, outputs.len() as int, here) && ends_in(path, here)) {
        some_is_longest(outputs, path, ext, n - 1);
    }
}

/// A path that ends in an extension of an output asks for that extension, or for a longer one that
/// it ends in too.
pub proof fn registered_extension_is_asked_for(
    outputs: Seq<Arc<OutputDef>>,
    path: Seq<char>,
    ext: Seq<char>,
)
    requires
        offered(outputs, outputs.len() as int, ext),
        ends_in(path, ext),
    ensures
        asked_of(path, outputs) matches Some((source, asked, _)) && asked.len() >= ext.len()
            && ends_in(path, asked) && source == path.take(path.len() - asked.len() - 1),
{
    some_is_longest(outputs, path, ext, path.len() as int);
    longest_ends(outputs, path, path.len() as int);
    reveal_strlit("geojson");
    reveal_strlit("json");
}

/// With GeoJSON as the only output, the longest extension that a path ends in is that of the format
/// that it asks for, and where it asks for none it ends in none: nothing else can be asked for.
pub proof fn geojson_alone_offers_the_formats(outputs: Seq<Arc<OutputDef>>, path: Seq<char>)
    requires
        outputs.len() == 1,
        is_geojson(*outputs[0]),
    ensures
        match format_of(path) {
            Some((_, ext, _)) => offered(outputs, 1, ext) && ends_in(path, ext) && forall|
                other: Seq<char>,
            |
                offered(outputs, 1, other) && #[trigger] ends_in(path, other) ==> other.len()
                    <= ext.len(),
            None => forall|other: Seq<char>|
                offered(outputs, 1, other) ==> !#[trigger] ends_in(path, other),
        },
        asked_of(path, outputs) == (match format_of(path) {
            Some((source, ext, format)) => Some((source, ext, Some(format))),
            None => None,
        }),
{
    longest_ends(outputs, path, path.len() as int);
    reveal_strlit("geojson");
    reveal_strlit("json");
    let exts = outputs[0].output.spec_extensions();
    assert(exts[0] == "geojson"@ && exts[1] == "json"@);
    assert forall|other: Seq<char>| offered(outputs, 1, other) implies other == "geojson"@ || other
        == "json"@ by {
        let i = choose|i: int| 0 <= i < exts.len() && exts[i] == other;
    }
    assert(offered(outputs, 1, "geojson"@) && offered(outputs, 1, "json"@)) by {
        assert(exts.contains("geojson"@) && exts.contains("json"@));
        assert(outputs[0].output.spec_extensions().contains("geojson"@));
    }
}

/// The last of the first `n` outputs that has the extension, and that is meant for the request
/// where there is one; none where there is none.
pub open spec fn output_at(
    outputs: Seq<Arc<OutputDef>>,
    ext: Seq<char>,
    parsed: Option<ParsedModel>,
    n: int,
) -> Option<int>
    decreases n,
{
    if n <= 0 {
        None
    } else if outputs[n - 1].output.spec_extensions().contains(ext) && (parsed matches Some(parsed)
        ==> outputs[n - 1].output.spec_applies(parsed)) {
        Some(n - 1)
    } else {
        output_at(outputs, ext, parsed, n - 1)
    }
}

/// Of two outputs that share an extension, the one that was registered later is asked first; one
/// that is not meant for the request leaves it to those before it.
pub proof fn the_latest_output_is_asked_first(
    outputs: Seq<Arc<OutputDef>>,
    def: Arc<OutputDef>,
    ext: Seq<char>,
    parsed: ParsedModel,
)
    requires
        def.output.spec_extensions().contains(ext),
    ensures
        ({
            let after = outputs.push(def);
            let n = outputs.len() as int;
            &&& output_at(after, ext, None, n + 1) == Some(n)
            &&& output_at(after, ext, Some(parsed), n + 1) == if def.output.spec_applies(parsed) {
                Some(n)
            } else {
                output_at(outputs, ext, Some(parsed), n)
            }
        }),
{
    let after = outputs.push(def);
    let n = outputs.len() as int;
    assert(after[n] == def);
    earlier_outputs_stay(outputs, def, ext, Some(parsed), n);
}

proof fn earlier_outputs_stay(
    outputs: Seq<Arc<OutputDef>>,
    def: Arc<OutputDef>,
    ext: Seq<char>,
    parsed: Option<ParsedModel>,
    n: int,
)
    requires
        0 <= n <= outputs.len(),
    ensures
        output_at(outputs.push(def), ext, parsed, n) == output_at(outputs, ext, parsed, n),
    decreases n,
{
    if n > 0 {
        assert(outputs.push(def)[n - 1] == outputs[n - 1]);
        earlier_outputs_stay(outputs, def, ext, parsed, n - 1);
    }
}

/// Whether the output has the extension.
pub fn has_extension(def: &OutputDef, ext: &str) -> (r: bool)
    ensures
        r == def.output.spec_extensions().contains(ext@),
{
    let exts = def.output.extensions();
    let ghost all = views(exts@);
    let mut i: usize = 0;
    while i < exts.len()
        invariant
            i <= exts@.len(),
            all == views(exts@),
            all == def.output.spec_extensions(),
            forall|j: int| 0 <= j < i ==> #[trigger] all[j] != ext@,
        decreases exts@.len() - i,
    {
        assert(all[i as int] == exts@[i as int]@);
        if same(exts[i], ext) {
            return true;
        }
        i += 1;
    }
    false
}

/// The output that was registered last for an extension.
pub fn for_extension(ext: &str, grammar: &Grammar) -> (r: Option<Arc<OutputDef>>)
    ensures
        match (
            r,
            output_at(grammar.outputs@, lowered(ext@), None, grammar.outputs@.len() as int),
        ) {
            (Some(def), Some(at)) => def == grammar.outputs@[at],
            (None, None) => true,
            _ => false,
        },
{
    let wanted = to_lower(ext);
    let mut n: usize = grammar.outputs.len();
    while n > 0
        invariant
            n <= grammar.outputs@.len(),
            wanted@ == lowered(ext@),
            output_at(grammar.outputs@, wanted@, None, grammar.outputs@.len() as int) == output_at(
                grammar.outputs@,
                wanted@,
                None,
                n as int,
            ),
        decreases n,
    {
        if has_extension(&grammar.outputs[n - 1], wanted.as_str()) {
            return Some(grammar.outputs[n - 1].clone());
        }
        n -= 1;
    }
    None
}

/// The output that was registered last for an extension among those that are meant for the
/// request.
pub fn claim(ext: &str, parsed: &ParsedUrl, grammar: &Grammar) -> (r: Option<Arc<OutputDef>>)
    ensures
        match (
            r,
            output_at(
                grammar.outputs@,
                lowered(ext@),
                Some(parsed@),
                grammar.outputs@.len() as int,
            ),
        ) {
            (Some(def), Some(at)) => def == grammar.outputs@[at],
            (None, None) => true,
            _ => false,
        },
{
    let wanted = to_lower(ext);
    let mut n: usize = grammar.outputs.len();
    while n > 0
        invariant
            n <= grammar.outputs@.len(),
            wanted@ == lowered(ext@),
            output_at(
                grammar.outputs@,
                wanted@,
                Some(parsed@),
                grammar.outputs@.len() as int,
            ) == output_at(grammar.outputs@, wanted@, Some(parsed@), n as int),
        decreases n,
    {
        if has_extension(&grammar.outputs[n - 1], wanted.as_str())
            && grammar.outputs[n - 1].output.applies(parsed) {
            return Some(grammar.outputs[n - 1].clone());
        }
        n -= 1;
    }
    None
}

/// A driver that writes files: its name, the extension of its files, and its options.
#[derive(Debug, Clone)]
pub struct Driver {
    pub name: &'static str,
    pub file: &'static str,
    pub options: Vec<&'static str>,
}

} // verus!
