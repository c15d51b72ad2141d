//! Built-in converter declarations registered at startup.
//!
//! Each declaration is stated twice: as a spec-level [`CapView`] literal —
//! the contractual content of the record — and as the executable
//! constructor proved to build exactly that record.

use vstd::prelude::*;

use crate::capability::{
    CapView, CapabilityRecord, FormatSpec, FormatSpecView, PreserveFeatures, PreserveLevel,
    Requirements, RequirementsView, ResourceCost,
};
use crate::error::AppError;
use crate::registry::Registry;

verus! {

/// The declared record of Pandoc, DOCX to Markdown.
pub open spec fn pandoc_docx_md_decl() -> CapView {
    CapView {
        id: "pandoc-docx-md"@,
        name: "Pandoc DOCX to Markdown"@,
        version: "3.0.0"@,
        license: "GPL-2.0"@,
        vendor: "John MacFarlane"@,
        binary_path: None,
        inputs: seq![
            FormatSpecView {
                mime: "application/vnd.openxmlformats-officedocument.wordprocessingml.document"@,
                extensions: seq!["docx"@],
            },
        ],
        outputs: seq![FormatSpecView { mime: "text/markdown"@, extensions: seq!["md"@] }],
        quality: 900,
        speed: 800,
        cost: ResourceCost { cpu: 500, memory: 300, gpu: 0 },
        requires: RequirementsView {
            tools: seq!["pandoc"@],
            lang_packs: Seq::empty(),
            fonts: Seq::empty(),
        },
        preserve: PreserveFeatures {
            styles: PreserveLevel::Partial,
            links: PreserveLevel::True,
            footnotes: PreserveLevel::True,
            headers: PreserveLevel::True,
            lists: PreserveLevel::True,
            tables: PreserveLevel::True,
            images: PreserveLevel::True,
            formulas: PreserveLevel::Partial,
        },
        risks: seq!["样式可能丢失"@],
        timeout_s: Some(300u32),
        max_mem_mb: Some(512u32),
        parallelism: 1,
        streaming: false,
    }
}

/// The declared record of Pandoc, DOCX to PDF.
pub open spec fn pandoc_docx_pdf_decl() -> CapView {
    CapView {
        id: "pandoc-docx-pdf"@,
        name: "Pandoc DOCX to PDF"@,
        version: "3.0.0"@,
        license: "GPL-2.0"@,
        vendor: "John MacFarlane"@,
        binary_path: None,
        inputs: seq![
            FormatSpecView {
                mime: "application/vnd.openxmlformats-officedocument.wordprocessingml.document"@,
                extensions: seq!["docx"@],
            },
        ],
        outputs: seq![FormatSpecView { mime: "application/pdf"@, extensions: seq!["pdf"@] }],
        quality: 850,
        speed: 700,
        cost: ResourceCost { cpu: 700, memory: 500, gpu: 0 },
        requires: RequirementsView {
            tools: seq!["pandoc"@],
            lang_packs: Seq::empty(),
            fonts: Seq::empty(),
        },
        preserve: PreserveFeatures {
            styles: PreserveLevel::Partial,
            links: PreserveLevel::True,
            footnotes: PreserveLevel::True,
            headers: PreserveLevel::True,
            lists: PreserveLevel::True,
            tables: PreserveLevel::True,
            images: PreserveLevel::True,
            formulas: PreserveLevel::Partial,
        },
        risks: seq!["复杂排版可能失真"@],
        timeout_s: Some(600u32),
        max_mem_mb: Some(1024u32),
        parallelism: 1,
        streaming: false,
    }
}

/// The declared record of Pandoc, Markdown to DOCX.
pub open spec fn pandoc_md_docx_decl() -> CapView {
    CapView {
        id: "pandoc-md-docx"@,
        name: "Pandoc Markdown to DOCX"@,
        version: "3.0.0"@,
        license: "GPL-2.0"@,
        vendor: "John MacFarlane"@,
        binary_path: None,
        inputs: seq![
            FormatSpecView { mime: "text/markdown"@, extensions: seq!["md"@, "markdown"@] },
        ],
        outputs: seq![
            FormatSpecView {
                mime: "application/vnd.openxmlformats-officedocument.wordprocessingml.document"@,
                extensions: seq!["docx"@],
            },
        ],
        quality: 880,
        speed: 850,
        cost: ResourceCost { cpu: 400, memory: 300, gpu: 0 },
        requires: RequirementsView {
            tools: seq!["pandoc"@],
            lang_packs: Seq::empty(),
            fonts: Seq::empty(),
        },
        preserve: PreserveFeatures {
            styles: PreserveLevel::Partial,
            links: PreserveLevel::True,
            footnotes: PreserveLevel::True,
            headers: PreserveLevel::True,
            lists: PreserveLevel::True,
            tables: PreserveLevel::True,
            images: PreserveLevel::True,
            formulas: PreserveLevel::False,
        },
        risks: Seq::empty(),
        timeout_s: Some(300u32),
        max_mem_mb: Some(512u32),
        parallelism: 1,
        streaming: false,
    }
}

/// The declared record of Pandoc, Markdown to HTML.
pub open spec fn pandoc_md_html_decl() -> CapView {
    CapView {
        id: "pandoc-md-html"@,
        name: "Pandoc Markdown to HTML"@,
        version: "3.0.0"@,
        license: "GPL-2.0"@,
        vendor: "John MacFarlane"@,
        binary_path: None,
        inputs: seq![
            FormatSpecView { mime: "text/markdown"@, extensions: seq!["md"@, "markdown"@] },
        ],
        outputs: seq![FormatSpecView { mime: "text/html"@, extensions: seq!["html"@] }],
        quality: 950,
        speed: 900,
        cost: ResourceCost { cpu: 300, memory: 200, gpu: 0 },
        requires: RequirementsView {
            tools: seq!["pandoc"@],
            lang_packs: Seq::empty(),
            fonts: Seq::empty(),
        },
        preserve: PreserveFeatures {
            styles: PreserveLevel::True,
            links: PreserveLevel::True,
            footnotes: PreserveLevel::True,
            headers: PreserveLevel::True,
            lists: PreserveLevel::True,
            tables: PreserveLevel::True,
            images: PreserveLevel::True,
            formulas: PreserveLevel::Partial,
        },
        risks: Seq::empty(),
        timeout_s: Some(180u32),
        max_mem_mb: Some(256u32),
        parallelism: 1,
        streaming: false,
    }
}

/// The declared record of ImageMagick, PNG to WebP.
pub open spec fn imagemagick_png_webp_decl() -> CapView {
    CapView {
        id: "imagemagick-png-webp"@,
        name: "ImageMagick PNG to WebP"@,
        version: "7.1.0"@,
        license: "Apache-2.0"@,
        vendor: "ImageMagick Studio"@,
        binary_path: None,
        inputs: seq![FormatSpecView { mime: "image/png"@, extensions: seq!["png"@] }],
        outputs: seq![FormatSpecView { mime: "image/webp"@, extensions: seq!["webp"@] }],
        quality: 920,
        speed: 850,
        cost: ResourceCost { cpu: 600, memory: 400, gpu: 0 },
        requires: RequirementsView {
            tools: seq!["magick"@],
            lang_packs: Seq::empty(),
            fonts: Seq::empty(),
        },
        preserve: PreserveFeatures {
            styles: PreserveLevel::True,
            links: PreserveLevel::False,
            footnotes: PreserveLevel::False,
            headers: PreserveLevel::False,
            lists: PreserveLevel::False,
            tables: PreserveLevel::False,
            images: PreserveLevel::True,
            formulas: PreserveLevel::False,
        },
        risks: seq!["有损压缩"@],
        timeout_s: Some(120u32),
        max_mem_mb: Some(2048u32),
        parallelism: 4,
        streaming: false,
    }
}

/// The declared record of ImageMagick, JPG to PNG.
pub open spec fn imagemagick_jpg_png_decl() -> CapView {
    CapView {
        id: "imagemagick-jpg-png"@,
        name: "ImageMagick JPG to PNG"@,
        version: "7.1.0"@,
        license: "Apache-2.0"@,
        vendor: "ImageMagick Studio"@,
        binary_path: None,
        inputs: seq![
            FormatSpecView { mime: "image/jpeg"@, extensions: seq!["jpg"@, "jpeg"@] },
        ],
        outputs: seq![FormatSpecView { mime: "image/png"@, extensions: seq!["png"@] }],
        quality: 1000,
        speed: 900,
        cost: ResourceCost { cpu: 400, memory: 300, gpu: 0 },
        requires: RequirementsView {
            tools: seq!["magick"@],
            lang_packs: Seq::empty(),
            fonts: Seq::empty(),
        },
        preserve: PreserveFeatures {
            styles: PreserveLevel::True,
            links: PreserveLevel::False,
            footnotes: PreserveLevel::False,
            headers: PreserveLevel::False,
            lists: PreserveLevel::False,
            tables: PreserveLevel::False,
            images: PreserveLevel::True,
            formulas: PreserveLevel::False,
        },
        risks: Seq::empty(),
        timeout_s: Some(120u32),
        max_mem_mb: Some(2048u32),
        parallelism: 4,
        streaming: false,
    }
}

/// The six built-in declarations, in registration order.
pub open spec fn builtin_decls() -> Seq<CapView> {
    seq![
        pandoc_docx_md_decl(),
        pandoc_docx_pdf_decl(),
        pandoc_md_docx_decl(),
        pandoc_md_html_decl(),
        imagemagick_png_webp_decl(),
        imagemagick_jpg_png_decl(),
    ]
}

/// Pandoc, DOCX to Markdown.
fn pandoc_docx_md() -> (c: CapabilityRecord)
    ensures
        c@ == pandoc_docx_md_decl(),
        c@.wf(),
{
    let c = CapabilityRecord {
        id: "pandoc-docx-md".to_owned(),
        name: "Pandoc DOCX to Markdown".to_owned(),
        version: "3.0.0".to_owned(),
        license: "GPL-2.0".to_owned(),
        vendor: "John MacFarlane".to_owned(),
        binary_path: None,
        inputs: vec![
            FormatSpec {
                mime: "application/vnd.openxmlformats-officedocument.wordprocessingml.document".to_owned(),
                extensions: vec!["docx".to_owned()],
            },
        ],
        outputs: vec![
            FormatSpec { mime: "text/markdown".to_owned(), extensions: vec!["md".to_owned()] },
        ],
        quality: 900,
        speed: 800,
        cost: ResourceCost { cpu: 500, memory: 300, gpu: 0 },
        requires: Requirements {
            tools: vec!["pandoc".to_owned()],
            lang_packs: Vec::new(),
            fonts: Vec::new(),
        },
        preserve: PreserveFeatures {
            styles: PreserveLevel::Partial,
            links: PreserveLevel::True,
            footnotes: PreserveLevel::True,
            headers: PreserveLevel::True,
            lists: PreserveLevel::True,
            tables: PreserveLevel::True,
            images: PreserveLevel::True,
            formulas: PreserveLevel::Partial,
        },
        risks: vec!["样式可能丢失".to_owned()],
        timeout_s: Some(300),
        max_mem_mb: Some(512),
        parallelism: 1,
        streaming: false,
    };
    proof {
        assert(c.inputs.deep_view()[0].extensions =~= seq!["docx"@]);
        assert(c.inputs.deep_view() =~= pandoc_docx_md_decl().inputs);
        assert(c.outputs.deep_view()[0].extensions =~= seq!["md"@]);
        assert(c.outputs.deep_view() =~= pandoc_docx_md_decl().outputs);
        assert(c.requires@.tools =~= seq!["pandoc"@]);
        assert(c.requires@.lang_packs =~= Seq::<Seq<char>>::empty());
        assert(c.requires@.fonts =~= Seq::<Seq<char>>::empty());
        assert(c.risks.deep_view() =~= seq!["样式可能丢失"@]);
        assert(c@ == pandoc_docx_md_decl());
    }
    c
}

/// Pandoc, DOCX to PDF.
fn pandoc_docx_pdf() -> (c: CapabilityRecord)
    ensures
        c@ == pandoc_docx_pdf_decl(),
        c@.wf(),
{
    let c = CapabilityRecord {
        id: "pandoc-docx-pdf".to_owned(),
        name: "Pandoc DOCX to PDF".to_owned(),
        version: "3.0.0".to_owned(),
        license: "GPL-2.0".to_owned(),
        vendor: "John MacFarlane".to_owned(),
        binary_path: None,
        inputs: vec![
            FormatSpec {
                mime: "application/vnd.openxmlformats-officedocument.wordprocessingml.document".to_owned(),
                extensions: vec!["docx".to_owned()],
            },
        ],
        outputs: vec![
            FormatSpec { mime: "application/pdf".to_owned(), extensions: vec!["pdf".to_owned()] },
        ],
        quality: 850,
        speed: 700,
        cost: ResourceCost { cpu: 700, memory: 500, gpu: 0 },
        requires: Requirements {
            tools: vec!["pandoc".to_owned()],
            lang_packs: Vec::new(),
            fonts: Vec::new(),
        },
        preserve: PreserveFeatures {
            styles: PreserveLevel::Partial,
            links: PreserveLevel::True,
            footnotes: PreserveLevel::True,
            headers: PreserveLevel::True,
            lists: PreserveLevel::True,
            tables: PreserveLevel::True,
            images: PreserveLevel::True,
            formulas: PreserveLevel::Partial,
        },
        risks: vec!["复杂排版可能失真".to_owned()],
        timeout_s: Some(600),
        max_mem_mb: Some(1024),
        parallelism: 1,
        streaming: false,
    };
    proof {
        assert(c.inputs.deep_view()[0].extensions =~= seq!["docx"@]);
        assert(c.inputs.deep_view() =~= pandoc_docx_pdf_decl().inputs);
        assert(c.outputs.deep_view()[0].extensions =~= seq!["pdf"@]);
        assert(c.outputs.deep_view() =~= pandoc_docx_pdf_decl().outputs);
        assert(c.requires@.tools =~= seq!["pandoc"@]);
        assert(c.requires@.lang_packs =~= Seq::<Seq<char>>::empty());
        assert(c.requires@.fonts =~= Seq::<Seq<char>>::empty());
        assert(c.risks.deep_view() =~= seq!["复杂排版可能失真"@]);
        assert(c@ == pandoc_docx_pdf_decl());
    }
    c
}

/// Pandoc, Markdown to DOCX.
fn pandoc_md_docx() -> (c: CapabilityRecord)
    ensures
        c@ == pandoc_md_docx_decl(),
        c@.wf(),
{
    let c = CapabilityRecord {
        id: "pandoc-md-docx".to_owned(),
        name: "Pandoc Markdown to DOCX".to_owned(),
        version: "3.0.0".to_owned(),
        license: "GPL-2.0".to_owned(),
        vendor: "John MacFarlane".to_owned(),
        binary_path: None,
        inputs: vec![
            FormatSpec {
                mime: "text/markdown".to_owned(),
                extensions: vec!["md".to_owned(), "markdown".to_owned()],
            },
        ],
        outputs: vec![
            FormatSpec {
                mime: "application/vnd.openxmlformats-officedocument.wordprocessingml.document".to_owned(),
                extensions: vec!["docx".to_owned()],
            },
        ],
        quality: 880,
        speed: 850,
        cost: ResourceCost { cpu: 400, memory: 300, gpu: 0 },
        requires: Requirements {
            tools: vec!["pandoc".to_owned()],
            lang_packs: Vec::new(),
            fonts: Vec::new(),
        },
        preserve: PreserveFeatures {
            styles: PreserveLevel::Partial,
            links: PreserveLevel::True,
            footnotes: PreserveLevel::True,
            headers: PreserveLevel::True,
            lists: PreserveLevel::True,
            tables: PreserveLevel::True,
            images: PreserveLevel::True,
            formulas: PreserveLevel::False,
        },
        risks: Vec::new(),
        timeout_s: Some(300),
        max_mem_mb: Some(512),
        parallelism: 1,
        streaming: false,
    };
    proof {
        assert(c.inputs.deep_view()[0].extensions =~= seq!["md"@, "markdown"@]);
        assert(c.inputs.deep_view() =~= pandoc_md_docx_decl().inputs);
        assert(c.outputs.deep_view()[0].extensions =~= seq!["docx"@]);
        assert(c.outputs.deep_view() =~= pandoc_md_docx_decl().outputs);
        assert(c.requires@.tools =~= seq!["pandoc"@]);
        assert(c.requires@.lang_packs =~= Seq::<Seq<char>>::empty());
        assert(c.requires@.fonts =~= Seq::<Seq<char>>::empty());
        assert(c.risks.deep_view() =~= Seq::<Seq<char>>::empty());
        assert(c@ == pandoc_md_docx_decl());
    }
    c
}

/// Pandoc, Markdown to HTML.
fn pandoc_md_html() -> (c: CapabilityRecord)
    ensures
        c@ == pandoc_md_html_decl(),
        c@.wf(),
{
    let c = CapabilityRecord {
        id: "pandoc-md-html".to_owned(),
        name: "Pandoc Markdown to HTML".to_owned(),
        version: "3.0.0".to_owned(),
        license: "GPL-2.0".to_owned(),
        vendor: "John MacFarlane".to_owned(),
        binary_path: None,
        inputs: vec![
            FormatSpec {
                mime: "text/markdown".to_owned(),
                extensions: vec!["md".to_owned(), "markdown".to_owned()],
            },
        ],
        outputs: vec![
            FormatSpec { mime: "text/html".to_owned(), extensions: vec!["html".to_owned()] },
        ],
        quality: 950,
        speed: 900,
        cost: ResourceCost { cpu: 300, memory: 200, gpu: 0 },
        requires: Requirements {
            tools: vec!["pandoc".to_owned()],
            lang_packs: Vec::new(),
            fonts: Vec::new(),
        },
        preserve: PreserveFeatures {
            styles: PreserveLevel::True,
            links: PreserveLevel::True,
            footnotes: PreserveLevel::True,
            headers: PreserveLevel::True,
            lists: PreserveLevel::True,
            tables: PreserveLevel::True,
            images: PreserveLevel::True,
            formulas: PreserveLevel::Partial,
        },
        risks: Vec::new(),
        timeout_s: Some(180),
        max_mem_mb: Some(256),
        parallelism: 1,
        streaming: false,
    };
    proof {
        assert(c.inputs.deep_view()[0].extensions =~= seq!["md"@, "markdown"@]);
        assert(c.inputs.deep_view() =~= pandoc_md_html_decl().inputs);
        assert(c.outputs.deep_view()[0].extensions =~= seq!["html"@]);
        assert(c.outputs.deep_view() =~= pandoc_md_html_decl().outputs);
        assert(c.requires@.tools =~= seq!["pandoc"@]);
        assert(c.requires@.lang_packs =~= Seq::<Seq<char>>::empty());
        assert(c.requires@.fonts =~= Seq::<Seq<char>>::empty());
        assert(c.risks.deep_view() =~= Seq::<Seq<char>>::empty());
        assert(c@ == pandoc_md_html_decl());
    }
    c
}

/// ImageMagick, PNG to WebP.
fn imagemagick_png_webp() -> (c: CapabilityRecord)
    ensures
        c@ == imagemagick_png_webp_decl(),
        c@.wf(),
{
    let c = CapabilityRecord {
        id: "imagemagick-png-webp".to_owned(),
        name: "ImageMagick PNG to WebP".to_owned(),
        version: "7.1.0".to_owned(),
        license: "Apache-2.0".to_owned(),
        vendor: "ImageMagick Studio".to_owned(),
        binary_path: None,
        inputs: vec![
            FormatSpec { mime: "image/png".to_owned(), extensions: vec!["png".to_owned()] },
        ],
        outputs: vec![
            FormatSpec { mime: "image/webp".to_owned(), extensions: vec!["webp".to_owned()] },
        ],
        quality: 920,
        speed: 850,
        cost: ResourceCost { cpu: 600, memory: 400, gpu: 0 },
        requires: Requirements {
            tools: vec!["magick".to_owned()],
            lang_packs: Vec::new(),
            fonts: Vec::new(),
        },
        preserve: PreserveFeatures {
            styles: PreserveLevel::True,
            links: PreserveLevel::False,
            footnotes: PreserveLevel::False,
            headers: PreserveLevel::False,
            lists: PreserveLevel::False,
            tables: PreserveLevel::False,
            images: PreserveLevel::True,
            formulas: PreserveLevel::False,
        },
        risks: vec!["有损压缩".to_owned()],
        timeout_s: Some(120),
        max_mem_mb: Some(2048),
        parallelism: 4,
        streaming: false,
    };
    proof {
        assert(c.inputs.deep_view()[0].extensions =~= seq!["png"@]);
        assert(c.inputs.deep_view() =~= imagemagick_png_webp_decl().inputs);
        assert(c.outputs.deep_view()[0].extensions =~= seq!["webp"@]);
        assert(c.outputs.deep_view() =~= imagemagick_png_webp_decl().outputs);
        assert(c.requires@.tools =~= seq!["magick"@]);
        assert(c.requires@.lang_packs =~= Seq::<Seq<char>>::empty());
        assert(c.requires@.fonts =~= Seq::<Seq<char>>::empty());
        assert(c.risks.deep_view() =~= seq!["有损压缩"@]);
        assert(c@ == imagemagick_png_webp_decl());
    }
    c
}

/// ImageMagick, JPG to PNG.
fn imagemagick_jpg_png() -> (c: CapabilityRecord)
    ensures
        c@ == imagemagick_jpg_png_decl(),
        c@.wf(),
{
    let c = CapabilityRecord {
        id: "imagemagick-jpg-png".to_owned(),
        name: "ImageMagick JPG to PNG".to_owned(),
        version: "7.1.0".to_owned(),
        license: "Apache-2.0".to_owned(),
        vendor: "ImageMagick Studio".to_owned(),
        binary_path: None,
        inputs: vec![
            FormatSpec {
                mime: "image/jpeg".to_owned(),
                extensions: vec!["jpg".to_owned(), "jpeg".to_owned()],
            },
        ],
        outputs: vec![
            FormatSpec { mime: "image/png".to_owned(), extensions: vec!["png".to_owned()] },
        ],
        quality: 1000,
        speed: 900,
        cost: ResourceCost { cpu: 400, memory: 300, gpu: 0 },
        requires: Requirements {
            tools: vec!["magick".to_owned()],
            lang_packs: Vec::new(),
            fonts: Vec::new(),
        },
        preserve: PreserveFeatures {
            styles: PreserveLevel::True,
            links: PreserveLevel::False,
            footnotes: PreserveLevel::False,
            headers: PreserveLevel::False,
            lists: PreserveLevel::False,
            tables: PreserveLevel::False,
            images: PreserveLevel::True,
            formulas: PreserveLevel::False,
        },
        risks: Vec::new(),
        timeout_s: Some(120),
        max_mem_mb: Some(2048),
        parallelism: 4,
        streaming: false,
    };
    proof {
        assert(c.inputs.deep_view()[0].extensions =~= seq!["jpg"@, "jpeg"@]);
        assert(c.inputs.deep_view() =~= imagemagick_jpg_png_decl().inputs);
        assert(c.outputs.deep_view()[0].extensions =~= seq!["png"@]);
        assert(c.outputs.deep_view() =~= imagemagick_jpg_png_decl().outputs);
        assert(c.requires@.tools =~= seq!["magick"@]);
        assert(c.requires@.lang_packs =~= Seq::<Seq<char>>::empty());
        assert(c.requires@.fonts =~= Seq::<Seq<char>>::empty());
        assert(c.risks.deep_view() =~= Seq::<Seq<char>>::empty());
        assert(c@ == imagemagick_jpg_png_decl());
    }
    c
}

/// Registers the built-in converter declarations into a fresh registry,
/// leaving its table holding exactly the six declared records, in order.
pub fn register_builtin_converters(registry: &mut Registry) -> (r: Result<(), AppError>)
    requires
        old(registry)@.wf(),
        old(registry)@.caps == Seq::<CapView>::empty(),
    ensures
        r is Ok,
        final(registry)@.wf(),
        final(registry)@.caps == builtin_decls(),
{
    proof {
        reveal_strlit("pandoc-docx-md");
        reveal_strlit("pandoc-docx-pdf");
        reveal_strlit("pandoc-md-docx");
        reveal_strlit("pandoc-md-html");
        reveal_strlit("imagemagick-png-webp");
        reveal_strlit("imagemagick-jpg-png");
        // lengths separate most ids; the three of equal length differ at a
        // concrete position
        assert(("pandoc-docx-md"@).len() == 14);
        assert(("pandoc-docx-pdf"@).len() == 15);
        assert(("pandoc-md-docx"@).len() == 14);
        assert(("pandoc-md-html"@).len() == 14);
        assert(("imagemagick-png-webp"@).len() == 20);
        assert(("imagemagick-jpg-png"@).len() == 19);
        assert(("pandoc-docx-md"@)[7] != ("pandoc-md-docx"@)[7]);
        assert(("pandoc-docx-md"@)[7] != ("pandoc-md-html"@)[7]);
        assert(("pandoc-md-docx"@)[10] != ("pandoc-md-html"@)[10]);
    }
    let c1 = pandoc_docx_md();
    let c2 = pandoc_docx_pdf();
    let c3 = pandoc_md_docx();
    let c4 = pandoc_md_html();
    let c5 = imagemagick_png_webp();
    let c6 = imagemagick_jpg_png();
    let ghost d = builtin_decls();
    proof {
        assert(!registry@.has_cap(d[0].id));
    }
    let r1 = registry.register(c1);
    if r1.is_err() {
        return r1;
    }
    proof {
        assert(registry@.caps =~= d.subrange(0, 1));
        assert forall|i: int| 0 <= i < registry@.caps.len() implies (
        #[trigger] registry@.caps[i]).id != d[1].id by {
            assert(registry@.caps[i] == d[i]);
        }
        assert(!registry@.has_cap(d[1].id));
    }
    let r2 = registry.register(c2);
    if r2.is_err() {
        return r2;
    }
    proof {
        assert(registry@.caps =~= d.subrange(0, 2));
        assert forall|i: int| 0 <= i < registry@.caps.len() implies (
        #[trigger] registry@.caps[i]).id != d[2].id by {
            assert(registry@.caps[i] == d[i]);
        }
        assert(!registry@.has_cap(d[2].id));
    }
    let r3 = registry.register(c3);
    if r3.is_err() {
        return r3;
    }
    proof {
        assert(registry@.caps =~= d.subrange(0, 3));
        assert forall|i: int| 0 <= i < registry@.caps.len() implies (
        #[trigger] registry@.caps[i]).id != d[3].id by {
            assert(registry@.caps[i] == d[i]);
        }
        assert(!registry@.has_cap(d[3].id));
    }
    let r4 = registry.register(c4);
    if r4.is_err() {
        return r4;
    }
    proof {
        assert(registry@.caps =~= d.subrange(0, 4));
        assert forall|i: int| 0 <= i < registry@.caps.len() implies (
        #[trigger] registry@.caps[i]).id != d[4].id by {
            assert(registry@.caps[i] == d[i]);
        }
        assert(!registry@.has_cap(d[4].id));
    }
    let r5 = registry.register(c5);
    if r5.is_err() {
        return r5;
    }
    proof {
        assert(registry@.caps =~= d.subrange(0, 5));
        assert forall|i: int| 0 <= i < registry@.caps.len() implies (
        #[trigger] registry@.caps[i]).id != d[5].id by {
            assert(registry@.caps[i] == d[i]);
        }
        assert(!registry@.has_cap(d[5].id));
    }
    let r6 = registry.register(c6);
    if r6.is_err() {
        return r6;
    }
    proof {
        assert(registry@.caps =~= d);
    }
    Ok(())
}

/// Initializes a fresh registry with the built-in converter declarations.
pub fn initialize(registry: &mut Registry) -> (r: Result<(), AppError>)
    requires
        old(registry)@.wf(),
        old(registry)@.caps == Seq::<CapView>::empty(),
    ensures
        r is Ok,
        final(registry)@.wf(),
        final(registry)@.caps == builtin_decls(),
{
    register_builtin_converters(registry)
}

} // verus!
