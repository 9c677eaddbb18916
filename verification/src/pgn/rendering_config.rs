//! Which markings PGN output includes.
use vstd::prelude::*;

verus! {

/// Controls which annotations and metadata are included when rendering PGN.
#[derive(Clone, Copy, Debug, PartialEq, Eq, Structural)]
pub struct PgnRenderingConfig {
    /// Include textual annotations such as `!` or `?`.
    pub include_annotations: bool,
    /// Include Numeric Annotation Glyphs (`$1`, `$2`, ...).
    pub include_nags: bool,
    /// Include `{comments}`.
    pub include_comments: bool,
}

impl Default for PgnRenderingConfig {
    fn default() -> (c: Self)
        ensures
            c == PgnRenderingConfig::all_markings_spec(),
    {
        Self::all_markings()
    }
}

impl PgnRenderingConfig {
    /// The configuration that includes every marking.
    pub open spec fn all_markings_spec() -> PgnRenderingConfig {
        PgnRenderingConfig { include_annotations: true, include_nags: true, include_comments: true }
    }

    /// Includes all markings (annotations, NAGs, comments).
    pub fn all_markings() -> (c: PgnRenderingConfig)
        ensures
            c == Self::all_markings_spec(),
    {
        PgnRenderingConfig { include_annotations: true, include_nags: true, include_comments: true }
    }

    /// Clean output without any marking.
    pub fn no_markings() -> (c: PgnRenderingConfig)
        ensures
            c == (PgnRenderingConfig {
                include_annotations: false,
                include_nags: false,
                include_comments: false,
            }),
    {
        PgnRenderingConfig { include_annotations: false, include_nags: false, include_comments: false }
    }

    /// Sets whether annotations are included.
    pub fn annotations(&mut self, enabled: bool) -> (r: &mut Self)
        ensures
            *r == (PgnRenderingConfig { include_annotations: enabled, ..*old(self) }),
            *final(self) == *final(r),
    {
        self.include_annotations = enabled;
        self
    }

    /// Sets whether NAGs are included.
    pub fn nags(&mut self, enabled: bool) -> (r: &mut Self)
        ensures
            *r == (PgnRenderingConfig { include_nags: enabled, ..*old(self) }),
            *final(self) == *final(r),
    {
        self.include_nags = enabled;
        self
    }

    /// Sets whether comments are included.
    pub fn comments(&mut self, enabled: bool) -> (r: &mut Self)
        ensures
            *r == (PgnRenderingConfig { include_comments: enabled, ..*old(self) }),
            *final(self) == *final(r),
    {
        self.include_comments = enabled;
        self
    }
}

} // verus!
