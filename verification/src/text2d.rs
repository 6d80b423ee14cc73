//! The sprites extracted for a block of 2D text: section backgrounds, shadowed decorations,
//! glyph batches and decorations, in drawing order. Which sprites are made, from which run or
//! which glyphs, is decided here; their transforms and colours are computed by the caller.
use vstd::prelude::*;

verus! {

/// The steps of sprite rendering that other steps order themselves against.
#[derive(Debug, Hash, PartialEq, Eq, Clone, Copy, Structural)]
pub enum SpriteSystems {
    ExtractSprites,
    ComputeSlices,
}

/// What the text sections of a block carry.
#[derive(Clone, Copy, Debug, PartialEq, Eq, Structural)]
pub struct SectionStyle {
    /// The section entity has a text colour.
    pub has_text_color: bool,
    /// The section entity has a background colour.
    pub has_background: bool,
    /// The section is struck through.
    pub strikethrough: bool,
    /// The section is underlined.
    pub underline: bool,
    /// The section entity has its own strikethrough colour.
    pub has_strikethrough_color: bool,
    /// The section entity has its own underline colour.
    pub has_underline_color: bool,
}

/// The colour a decoration is drawn in.
#[derive(Clone, Copy, Debug, PartialEq, Eq, Structural)]
pub enum DecorationColor {
    /// The section's own strikethrough or underline colour.
    Own,
    /// The section's text colour.
    Text,
}

/// A positioned glyph of the layout.
#[derive(Clone, Copy, Debug, PartialEq, Eq, Structural)]
pub struct GlyphSource {
    /// The index of the section the glyph belongs to.
    pub section_index: usize,
    /// The atlas texture that holds the glyph.
    pub texture: u64,
    /// The glyph is an alpha mask (not a colour image).
    pub is_alpha_mask: bool,
}

/// The effect a glyph slice is drawn with.
#[derive(Clone, Copy, Debug, PartialEq, Eq, Structural)]
pub enum GlyphEffect {
    /// Fill with shadow and outline (alpha-mask glyphs).
    Text,
    /// Shadow only (colour glyphs).
    Shadow,
}

/// One glyph slice.
#[derive(Clone, Copy, Debug, PartialEq, Eq, Structural)]
pub struct SlicePlan {
    /// The index of the glyph.
    pub glyph: usize,
    /// The atlas rect is expanded by the text effect padding.
    pub expanded_rect: bool,
    pub effect: GlyphEffect,
}

/// One sprite, in drawing order.
#[derive(Clone, Copy, Debug, PartialEq, Eq, Structural)]
pub enum SpritePlan {
    /// The background of a run.
    Background { run: usize },
    /// The strikethrough of a run, in shadow colour at the shadow offset.
    ShadowStrikethrough { run: usize },
    /// The underline of a run, in shadow colour at the shadow offset.
    ShadowUnderline { run: usize },
    /// Glyph slices `start..end`, coloured by the text colour of `color_section` (white when
    /// none), sampling `texture`.
    Glyphs { start: usize, end: usize, color_section: Option<usize>, texture: u64 },
    /// The strikethrough of a run, in the given colour.
    Strikethrough { run: usize, color: DecorationColor },
    /// The underline of a run, in the given colour.
    Underline { run: usize, color: DecorationColor },
}

/// The slices and sprites of a text block.
pub struct Text2dPlan {
    pub slices: Vec<SlicePlan>,
    pub sprites: Vec<SpritePlan>,
}

/// The background sprites of the first `n` runs.
pub open spec fn background_plans(sections: Seq<SectionStyle>, runs: Seq<usize>, n: int) -> Seq<SpritePlan>
    decreases n,
{
    if n <= 0 {
        Seq::empty()
    } else {
        let rest = background_plans(sections, runs, n - 1);
        if sections[runs[n - 1] as int].has_background {
            rest.push(SpritePlan::Background { run: (n - 1) as usize })
        } else {
            rest
        }
    }
}

/// The strikethrough and underline sprites of the first `n` runs whose section has a text
/// colour, in shadow form when `shadow` holds; otherwise each in the section's own
/// strikethrough or underline colour when it has one, else in its text colour.
pub open spec fn decoration_plans(
    sections: Seq<SectionStyle>,
    runs: Seq<usize>,
    n: int,
    shadow: bool,
) -> Seq<SpritePlan>
    decreases n,
{
    if n <= 0 {
        Seq::empty()
    } else {
        let rest = decoration_plans(sections, runs, n - 1, shadow);
        let style = sections[runs[n - 1] as int];
        let run = (n - 1) as usize;
        if !style.has_text_color {
            rest
        } else {
            let with_strike = if style.strikethrough {
                rest.push(
                    if shadow {
                        SpritePlan::ShadowStrikethrough { run }
                    } else {
                        SpritePlan::Strikethrough {
                            run,
                            color: if style.has_strikethrough_color {
                                DecorationColor::Own
                            } else {
                                DecorationColor::Text
                            },
                        }
                    },
                )
            } else {
                rest
            };
            if style.underline {
                with_strike.push(
                    if shadow {
                        SpritePlan::ShadowUnderline { run }
                    } else {
                        SpritePlan::Underline {
                            run,
                            color: if style.has_underline_color {
                                DecorationColor::Own
                            } else {
                                DecorationColor::Text
                            },
                        }
                    },
                )
            } else {
                with_strike
            }
        }
    }
}

/// The section of a glyph can be coloured: it exists and has a text colour.
pub open spec fn section_resolves(sections: Seq<SectionStyle>, section: usize) -> bool {
    section < sections.len() && sections[section as int].has_text_color
}

/// Where the glyph pass stands after some glyphs.
pub struct GlyphPass {
    pub current_section: usize,
    pub color_section: Option<usize>,
    pub start: nat,
    pub slices: Seq<SlicePlan>,
    pub batches: Seq<SpritePlan>,
}

/// The glyph pass after the first `n` glyphs. A glyph whose section differs from the current
/// one is skipped unless its section resolves, which makes it current. Each kept glyph adds a
/// slice; a batch of slices ends after the last glyph, or when the next glyph has another
/// section or texture.
pub open spec fn glyph_pass(
    sections: Seq<SectionStyle>,
    glyphs: Seq<GlyphSource>,
    n: int,
    has_shadow: bool,
    has_glyph_padding: bool,
) -> GlyphPass
    decreases n,
{
    if n <= 0 {
        GlyphPass {
            current_section: usize::MAX,
            color_section: None,
            start: 0,
            slices: Seq::empty(),
            batches: Seq::empty(),
        }
    } else {
        let before = glyph_pass(sections, glyphs, n - 1, has_shadow, has_glyph_padding);
        let g = glyphs[n - 1];
        let switches = g.section_index != before.current_section;
        if switches && !section_resolves(sections, g.section_index) {
            before
        } else {
            let current = if switches {
                g.section_index
            } else {
                before.current_section
            };
            let color = if switches {
                Some(g.section_index)
            } else {
                before.color_section
            };
            let slices = before.slices.push(
                SlicePlan {
                    glyph: (n - 1) as usize,
                    expanded_rect: (g.is_alpha_mask || has_shadow) && has_glyph_padding,
                    effect: if g.is_alpha_mask {
                        GlyphEffect::Text
                    } else {
                        GlyphEffect::Shadow
                    },
                },
            );
            let ends = n >= glyphs.len() || glyphs[n].section_index != current || glyphs[n].texture
                != g.texture;
            if ends {
                GlyphPass {
                    current_section: current,
                    color_section: color,
                    start: slices.len(),
                    slices,
                    batches: before.batches.push(
                        SpritePlan::Glyphs {
                            start: before.start as usize,
                            end: slices.len() as usize,
                            color_section: color,
                            texture: g.texture,
                        },
                    ),
                }
            } else {
                GlyphPass {
                    current_section: current,
                    color_section: color,
                    start: before.start,
                    slices,
                    batches: before.batches,
                }
            }
        }
    }
}

/// The glyph batches cover slices `0..len` in order, each a non-empty range that starts
/// where the previous one ended.
pub open spec fn batches_tile(batches: Seq<SpritePlan>, len: nat) -> bool {
    &&& forall|k: int|
        0 <= k < batches.len() ==> {
            &&& #[trigger] batches[k] is Glyphs
            &&& batches[k]->start < batches[k]->end
            &&& k == 0 ==> batches[k]->start == 0
            &&& k > 0 ==> batches[k]->start == batches[k - 1]->end
        }
    &&& batches.len() == 0 ==> len == 0
    &&& batches.len() > 0 ==> batches.last()->end == len
}

fn push_backgrounds(sections: &[SectionStyle], runs: &[usize], sprites: &mut Vec<SpritePlan>)
    requires
        forall|k: int| 0 <= k < runs@.len() ==> (#[trigger] runs@[k]) < sections@.len(),
    ensures
        final(sprites)@ == old(sprites)@ + background_plans(sections@, runs@, runs@.len() as int),
{
    let ghost start = sprites@;
    let mut k: usize = 0;
    while k < runs.len()
        invariant
            0 <= k <= runs@.len(),
            forall|j: int| 0 <= j < runs@.len() ==> (#[trigger] runs@[j]) < sections@.len(),
            sprites@ == start + background_plans(sections@, runs@, k as int),
        decreases runs.len() - k,
    {
        let style = sections[runs[k]];
        if style.has_background {
            sprites.push(SpritePlan::Background { run: k });
        }
        proof {
            assert(sprites@ =~= start + background_plans(sections@, runs@, k + 1));
        }
        k = k + 1;
    }
}

fn push_decorations(
    sections: &[SectionStyle],
    runs: &[usize],
    shadow: bool,
    sprites: &mut Vec<SpritePlan>,
)
    requires
        forall|k: int| 0 <= k < runs@.len() ==> (#[trigger] runs@[k]) < sections@.len(),
    ensures
        final(sprites)@ == old(sprites)@ + decoration_plans(sections@, runs@, runs@.len() as int, shadow),
{
    let ghost start = sprites@;
    let mut k: usize = 0;
    while k < runs.len()
        invariant
            0 <= k <= runs@.len(),
            forall|j: int| 0 <= j < runs@.len() ==> (#[trigger] runs@[j]) < sections@.len(),
            sprites@ == start + decoration_plans(sections@, runs@, k as int, shadow),
        decreases runs.len() - k,
    {
        let style = sections[runs[k]];
        if style.has_text_color {
            if style.strikethrough {
                if shadow {
                    sprites.push(SpritePlan::ShadowStrikethrough { run: k });
                } else {
                    let color = if style.has_strikethrough_color {
                        DecorationColor::Own
                    } else {
                        DecorationColor::Text
                    };
                    sprites.push(SpritePlan::Strikethrough { run: k, color });
                }
            }
            if style.underline {
                if shadow {
                    sprites.push(SpritePlan::ShadowUnderline { run: k });
                } else {
                    let color = if style.has_underline_color {
                        DecorationColor::Own
                    } else {
                        DecorationColor::Text
                    };
                    sprites.push(SpritePlan::Underline { run: k, color });
                }
            }
        }
        proof {
            assert(sprites@ =~= start + decoration_plans(sections@, runs@, k + 1, shadow));
        }
        k = k + 1;
    }
}

/// What the glyph pass keeps between glyphs: the batch under way is non-empty only while the
/// next glyph continues it.
pub open spec fn glyph_pass_invariant(glyphs: Seq<GlyphSource>, n: int, pass: GlyphPass) -> bool {
    &&& batches_tile(pass.batches, pass.start)
    &&& pass.start <= pass.slices.len()
    &&& pass.slices.len() <= n
    &&& forall|j: int| 0 <= j < pass.slices.len() ==> (#[trigger] pass.slices[j]).glyph < n
    &&& pass.start < pass.slices.len() ==> {
        &&& n < glyphs.len()
        &&& glyphs[n].section_index == pass.current_section
        &&& glyphs[n].texture == glyphs[pass.slices.last().glyph as int].texture
    }
}

/// The glyph pass keeps its invariant.
#[verifier::rlimit(40)]
pub proof fn lemma_glyph_pass_invariant(
    sections: Seq<SectionStyle>,
    glyphs: Seq<GlyphSource>,
    n: int,
    has_shadow: bool,
    has_glyph_padding: bool,
)
    requires
        0 <= n <= glyphs.len(),
        glyphs.len() <= usize::MAX,
    ensures
        glyph_pass_invariant(glyphs, n, glyph_pass(sections, glyphs, n, has_shadow, has_glyph_padding)),
    decreases n,
{
    if n > 0 {
        lemma_glyph_pass_invariant(sections, glyphs, n - 1, has_shadow, has_glyph_padding);
        let before = glyph_pass(sections, glyphs, n - 1, has_shadow, has_glyph_padding);
        let after = glyph_pass(sections, glyphs, n, has_shadow, has_glyph_padding);
        let g = glyphs[n - 1];
        let switches = g.section_index != before.current_section;
        if switches && !section_resolves(sections, g.section_index) {
            assert(before.start == before.slices.len());
            assert(after == before);
        } else {
            if before.start < before.slices.len() {
                assert(!switches);
            }
            assert(after.slices.len() == before.slices.len() + 1);
            assert(after.slices.last().glyph == n - 1);
            assert forall|j: int| 0 <= j < after.slices.len() implies (#[trigger] after.slices[j]).glyph
                < n by {
                if j < before.slices.len() {
                    assert(after.slices[j] == before.slices[j]);
                }
            }
            assert(after.slices.len() <= n);
            if after.batches.len() > before.batches.len() {
                lemma_tile_extend(before.batches, before.start, after.slices.len(), after.batches);
            }
        }
    }
}

/// The slice of glyph `i`: its rect is expanded by the effect padding when there is padding
/// and the glyph is a mask or has a shadow; masks get the text effect, colour glyphs the
/// shadow only.
pub open spec fn glyph_slice(g: GlyphSource, i: int, has_shadow: bool, has_glyph_padding: bool) -> SlicePlan {
    SlicePlan {
        glyph: i as usize,
        expanded_rect: (g.is_alpha_mask || has_shadow) && has_glyph_padding,
        effect: if g.is_alpha_mask {
            GlyphEffect::Text
        } else {
            GlyphEffect::Shadow
        },
    }
}

/// No glyph among the first `n` has a section that resolves.
#[verifier::opaque]
pub open spec fn none_resolve_before(sections: Seq<SectionStyle>, glyphs: Seq<GlyphSource>, n: int) -> bool {
    forall|j: int| 0 <= j < n ==> !section_resolves(sections, #[trigger] glyphs[j].section_index)
}

/// Glyph `i` gets a slice: its section resolves, or it names no section (`usize::MAX`) while no
/// earlier glyph's section has resolved yet.
pub open spec fn glyph_is_kept(sections: Seq<SectionStyle>, glyphs: Seq<GlyphSource>, i: int) -> bool {
    section_resolves(sections, glyphs[i].section_index) || (glyphs[i].section_index == usize::MAX
        && none_resolve_before(sections, glyphs, i))
}

/// The slices of the first `n` glyphs: one for each kept glyph, in order.
pub open spec fn kept_slices(
    sections: Seq<SectionStyle>,
    glyphs: Seq<GlyphSource>,
    n: int,
    has_shadow: bool,
    has_glyph_padding: bool,
) -> Seq<SlicePlan>
    decreases n,
{
    if n <= 0 {
        Seq::empty()
    } else {
        let rest = kept_slices(sections, glyphs, n - 1, has_shadow, has_glyph_padding);
        if glyph_is_kept(sections, glyphs, n - 1) {
            rest.push(glyph_slice(glyphs[n - 1], n - 1, has_shadow, has_glyph_padding))
        } else {
            rest
        }
    }
}

/// The glyph pass keeps exactly the kept glyphs: its current section is none until a section
/// resolves, and a section that resolves from then on.
pub proof fn lemma_glyph_pass_keeps_resolving_glyphs(
    sections: Seq<SectionStyle>,
    glyphs: Seq<GlyphSource>,
    n: int,
    has_shadow: bool,
    has_glyph_padding: bool,
)
    requires
        0 <= n <= glyphs.len(),
        sections.len() <= usize::MAX,
    ensures
        glyph_pass(sections, glyphs, n, has_shadow, has_glyph_padding).slices == kept_slices(
            sections,
            glyphs,
            n,
            has_shadow,
            has_glyph_padding,
        ),
        (glyph_pass(sections, glyphs, n, has_shadow, has_glyph_padding).current_section == usize::MAX)
            == none_resolve_before(sections, glyphs, n),
        glyph_pass(sections, glyphs, n, has_shadow, has_glyph_padding).current_section != usize::MAX
            ==> section_resolves(
            sections,
            glyph_pass(sections, glyphs, n, has_shadow, has_glyph_padding).current_section,
        ),
    decreases n,
{
    reveal(none_resolve_before);
    if n > 0 {
        lemma_glyph_pass_keeps_resolving_glyphs(sections, glyphs, n - 1, has_shadow, has_glyph_padding);
        reveal(none_resolve_before);
        let before = glyph_pass(sections, glyphs, n - 1, has_shadow, has_glyph_padding);
        let after = glyph_pass(sections, glyphs, n, has_shadow, has_glyph_padding);
        let g = glyphs[n - 1];
        assert(!section_resolves(sections, usize::MAX));
        let kept = glyph_is_kept(sections, glyphs, n - 1);
        if g.section_index != before.current_section && !section_resolves(sections, g.section_index) {
            assert(!kept);
            assert(after == before);
            assert(none_resolve_before(sections, glyphs, n) == none_resolve_before(sections, glyphs, n - 1));
        } else {
            assert(kept);
            assert(after.slices == before.slices.push(glyph_slice(g, n - 1, has_shadow, has_glyph_padding)));
            if section_resolves(sections, g.section_index) {
                assert(!none_resolve_before(sections, glyphs, n));
            } else {
                assert(none_resolve_before(sections, glyphs, n) == none_resolve_before(sections, glyphs, n - 1));
            }
        }
    }
}

/// Appending a batch from the end of a tiling to `end` tiles up to `end`.
proof fn lemma_tile_extend(
    batches: Seq<SpritePlan>,
    start: nat,
    end: nat,
    extended: Seq<SpritePlan>,
)
    requires
        batches_tile(batches, start),
        start < end,
        extended.len() == batches.len() + 1,
        forall|k: int| 0 <= k < batches.len() ==> extended[k] == batches[k],
        extended.last() is Glyphs,
        extended.last()->start == start,
        extended.last()->end == end,
    ensures
        batches_tile(extended, end),
{
    assert forall|k: int| 0 <= k < extended.len() implies {
        &&& #[trigger] extended[k] is Glyphs
        &&& extended[k]->start < extended[k]->end
        &&& k == 0 ==> extended[k]->start == 0
        &&& k > 0 ==> extended[k]->start == extended[k - 1]->end
    } by {
        if k < batches.len() {
            assert(extended[k] == batches[k]);
            if k > 0 {
                assert(extended[k - 1] == batches[k - 1]);
            }
        } else {
            if k > 0 {
                assert(extended[k - 1] == batches[k - 1]);
                assert(batches.last() == batches[k - 1]);
            }
        }
    }
}

/// Plans the sprites of one block of 2D text, none when it is not visible: a background for each run whose section has
/// one; with a shadow, a shadowed strikethrough and underline for each decorated run; the
/// glyph batches; then a strikethrough and underline for each decorated run. Runs name their
/// section by index, and a run's section must exist when the text is visible.
pub fn plan_text2d_sprites(
    visible: bool,
    sections: &[SectionStyle],
    runs: &[usize],
    glyphs: &[GlyphSource],
    has_shadow: bool,
    has_glyph_padding: bool,
) -> (plan: Text2dPlan)
    requires
        visible ==> forall|k: int| 0 <= k < runs@.len() ==> (#[trigger] runs@[k]) < sections@.len(),
    ensures
        !visible ==> plan.slices@.len() == 0 && plan.sprites@.len() == 0,
        visible ==> plan.slices@ == kept_slices(
            sections@,
            glyphs@,
            glyphs@.len() as int,
            has_shadow,
            has_glyph_padding,
        ),
        visible ==> plan.sprites@ == background_plans(sections@, runs@, runs@.len() as int) + (if has_shadow {
            decoration_plans(sections@, runs@, runs@.len() as int, true)
        } else {
            Seq::empty()
        }) + glyph_pass(sections@, glyphs@, glyphs@.len() as int, has_shadow, has_glyph_padding).batches
            + decoration_plans(sections@, runs@, runs@.len() as int, false),
        visible ==> batches_tile(
            glyph_pass(sections@, glyphs@, glyphs@.len() as int, has_shadow, has_glyph_padding).batches,
            plan.slices@.len(),
        ),
{
    if !visible {
        return Text2dPlan { slices: Vec::new(), sprites: Vec::new() };
    }
    let mut sprites: Vec<SpritePlan> = Vec::new();
    push_backgrounds(sections, runs, &mut sprites);
    if has_shadow {
        push_decorations(sections, runs, true, &mut sprites);
    }
    let ghost head = sprites@;
    proof {
        assert(head =~= background_plans(sections@, runs@, runs@.len() as int) + (if has_shadow {
            decoration_plans(sections@, runs@, runs@.len() as int, true)
        } else {
            Seq::empty()
        }));
    }
    let mut slices: Vec<SlicePlan> = Vec::new();
    let mut current_section: usize = usize::MAX;
    let mut color_section: Option<usize> = None;
    let mut start: usize = 0;
    let mut i: usize = 0;
    while i < glyphs.len()
        invariant
            0 <= i <= glyphs@.len(),
            ({
                let pass = glyph_pass(sections@, glyphs@, i as int, has_shadow, has_glyph_padding);
                &&& pass.current_section == current_section
                &&& pass.color_section == color_section
                &&& pass.start == start
                &&& pass.slices == slices@
                &&& sprites@ == head + pass.batches
            }),
            slices@.len() <= i,
        decreases glyphs.len() - i,
    {
        let glyph = glyphs[i];
        let switches = glyph.section_index != current_section;
        let keep = if switches {
            glyph.section_index < sections.len() && sections[glyph.section_index].has_text_color
        } else {
            true
        };
        if keep {
            if switches {
                current_section = glyph.section_index;
                color_section = Some(glyph.section_index);
            }
            slices.push(
                SlicePlan {
                    glyph: i,
                    expanded_rect: (glyph.is_alpha_mask || has_shadow) && has_glyph_padding,
                    effect: if glyph.is_alpha_mask {
                        GlyphEffect::Text
                    } else {
                        GlyphEffect::Shadow
                    },
                },
            );
            let ends = i + 1 >= glyphs.len() || glyphs[i + 1].section_index != current_section
                || glyphs[i + 1].texture != glyph.texture;
            if ends {
                let end = slices.len();
                sprites.push(
                    SpritePlan::Glyphs { start, end, color_section, texture: glyph.texture },
                );
                start = end;
            }
        }
        proof {
            let pass = glyph_pass(sections@, glyphs@, i + 1, has_shadow, has_glyph_padding);
            assert(pass.slices =~= slices@);
            assert(sprites@ =~= head + pass.batches);
        }
        i = i + 1;
    }
    push_decorations(sections, runs, false, &mut sprites);
    proof {
        let pass = glyph_pass(sections@, glyphs@, glyphs@.len() as int, has_shadow, has_glyph_padding);
        assert(glyphs@.len() == glyphs.len());
        lemma_glyph_pass_invariant(sections@, glyphs@, glyphs@.len() as int, has_shadow, has_glyph_padding);

        assert(pass.start == pass.slices.len());
        assert(sprites@ =~= head + pass.batches + decoration_plans(sections@, runs@, runs@.len() as int, false));
    }
    proof {
        assert(sections@.len() == sections.len());
        lemma_glyph_pass_keeps_resolving_glyphs(
            sections@,
            glyphs@,
            glyphs@.len() as int,
            has_shadow,
            has_glyph_padding,
        );
    }
    Text2dPlan { slices, sprites }
}

} // verus!
