use f2f_converter::capability::{
    CapabilityRecord, FormatSpec, PreserveFeatures, PreserveLevel, Requirements, ResourceCost,
};
use f2f_converter::builtin::initialize;
use f2f_converter::planner::Planner;
use f2f_converter::registry::Registry;

fn cap(id: &str, from: &str, to: &str, quality: u32) -> CapabilityRecord {
    CapabilityRecord {
        id: id.to_owned(),
        name: id.to_owned(),
        version: "1.0".to_owned(),
        license: "MIT".to_owned(),
        vendor: "test".to_owned(),
        binary_path: None,
        inputs: vec![FormatSpec { mime: from.to_owned(), extensions: vec![] }],
        outputs: vec![FormatSpec { mime: to.to_owned(), extensions: vec![] }],
        quality,
        speed: 800,
        cost: ResourceCost { cpu: 500, memory: 300, gpu: 0 },
        requires: Requirements {
            tools: vec!["testtool".to_owned()],
            lang_packs: vec![],
            fonts: vec![],
        },
        preserve: PreserveFeatures {
            styles: PreserveLevel::Partial,
            links: PreserveLevel::True,
            footnotes: PreserveLevel::True,
            headers: PreserveLevel::True,
            lists: PreserveLevel::True,
            tables: PreserveLevel::True,
            images: PreserveLevel::True,
            formulas: PreserveLevel::Partial,
        },
        risks: vec![],
        timeout_s: Some(300),
        max_mem_mb: Some(512),
        parallelism: 1,
        streaming: false,
    }
}

#[test]
fn test_register_adds_alias_edges() {
    let mut registry = Registry::new();
    let mut c = cap("conv-a-c", "mime/a", "mime/c", 900);
    c.inputs[0].extensions.push("a".to_owned());
    c.outputs[0].extensions.push("c".to_owned());
    registry.register(c).unwrap();
    for from in ["mime/a", "a"] {
        for to in ["mime/c", "c"] {
            let ids = registry.find_converters(from, to);
            assert_eq!(ids, vec!["conv-a-c".to_owned()], "missing edge {from} -> {to}");
        }
    }
    assert!(registry.find_converters("mime/c", "mime/a").is_empty());
}

#[test]
fn test_reregister_replaces_edges() {
    let mut registry = Registry::new();
    registry.register(cap("conv-x", "mime/a", "mime/c", 900)).unwrap();
    assert_eq!(registry.find_converters("mime/a", "mime/c"), vec!["conv-x".to_owned()]);
    // same id, different declaration: the old edges must vanish
    registry.register(cap("conv-x", "mime/b", "mime/c", 800)).unwrap();
    assert!(registry.find_converters("mime/a", "mime/c").is_empty());
    assert_eq!(registry.find_converters("mime/b", "mime/c"), vec!["conv-x".to_owned()]);
    assert_eq!(registry.list_all().len(), 1);
    assert_eq!(registry.get("conv-x").unwrap().quality, 800);
}

#[test]
fn test_get_and_list_all() {
    let mut registry = Registry::new();
    assert!(registry.get("nope").is_none());
    registry.register(cap("one", "mime/a", "mime/b", 700)).unwrap();
    registry.register(cap("two", "mime/b", "mime/c", 600)).unwrap();
    let all = registry.list_all();
    assert_eq!(all.len(), 2);
    assert_eq!(registry.get("one").unwrap().id, "one");
    assert!(registry.get("three").is_none());
}

#[test]
fn test_refresh_swaps_whole_set() {
    let mut registry = Registry::new();
    registry.register(cap("old", "mime/a", "mime/b", 700)).unwrap();
    registry
        .refresh(vec![cap("new1", "mime/c", "mime/d", 800), cap("new2", "mime/d", "mime/e", 900)])
        .unwrap();
    assert!(registry.find_converters("mime/a", "mime/b").is_empty());
    assert_eq!(registry.find_converters("mime/c", "mime/d"), vec!["new1".to_owned()]);
    assert_eq!(registry.list_all().len(), 2);
}

#[test]
fn test_refresh_rejects_duplicate_ids() {
    let mut registry = Registry::new();
    let r = registry.refresh(vec![
        cap("dup", "mime/a", "mime/b", 700),
        cap("dup", "mime/b", "mime/c", 800),
    ]);
    assert!(r.is_err());
    assert!(registry.list_all().is_empty());
}

#[test]
fn test_refresh_rejects_out_of_range_score() {
    let mut registry = Registry::new();
    let r = registry.refresh(vec![cap("bad", "mime/a", "mime/b", 1001)]);
    assert!(r.is_err());
}

#[test]
fn test_get_targets_lists_direct_edges() {
    let mut registry = Registry::new();
    registry.register(cap("ab", "mime/a", "mime/b", 700)).unwrap();
    registry.register(cap("ac", "mime/a", "mime/c", 800)).unwrap();
    registry.register(cap("bc", "mime/b", "mime/c", 900)).unwrap();
    let mut formats: Vec<String> =
        registry.get_targets("mime/a").into_iter().map(|t| t.format).collect();
    formats.sort();
    assert_eq!(formats, vec!["mime/b".to_owned(), "mime/c".to_owned()]);
}

#[test]
fn test_required_tools_are_distinct() {
    let mut registry = Registry::new();
    registry.register(cap("ab", "mime/a", "mime/b", 700)).unwrap();
    registry.register(cap("bc", "mime/b", "mime/c", 900)).unwrap();
    assert_eq!(registry.required_tools(), vec!["testtool".to_owned()]);
}

#[test]
fn test_check_health_reports_probes() {
    let registry = Registry::new();
    let report = registry.check_health(vec![]);
    assert!(report.tools.is_empty());
}

#[test]
fn test_plan_identity_path() {
    let registry = Registry::new();
    let planner = Planner::new();
    for threshold in [0, 500, 1000] {
        let paths = planner.plan(&registry, "mime/x", "mime/x", threshold).unwrap();
        assert_eq!(paths.len(), 1);
        assert!(paths[0].steps.is_empty());
        assert_eq!(paths[0].total_quality, 1000);
        assert_eq!(paths[0].estimated_time_ms, 0);
    }
}

#[test]
fn test_plan_direct_scenario() {
    // one capability docx -> md of quality 0.9
    let mut registry = Registry::new();
    registry.register(cap("docx-md", "docx-mime", "md-mime", 900)).unwrap();
    let planner = Planner::new();

    let paths = planner.plan(&registry, "docx-mime", "md-mime", 500).unwrap();
    assert_eq!(paths.len(), 1);
    assert_eq!(paths[0].steps.len(), 1);
    assert_eq!(paths[0].steps[0].converter_id, "docx-md");
    assert_eq!(paths[0].total_quality, 900);

    let none = planner.plan(&registry, "docx-mime", "md-mime", 950).unwrap();
    assert!(none.is_empty());
}

#[test]
fn test_plan_multi_hop_compounds_quality() {
    let mut registry = Registry::new();
    registry.register(cap("ab", "mime/a", "mime/b", 900)).unwrap();
    registry.register(cap("bc", "mime/b", "mime/c", 900)).unwrap();
    let planner = Planner::new();

    let paths = planner.plan(&registry, "mime/a", "mime/c", 500).unwrap();
    assert_eq!(paths.len(), 1);
    assert_eq!(paths[0].steps.len(), 2);
    assert_eq!(paths[0].steps[0].converter_id, "ab");
    assert_eq!(paths[0].steps[1].converter_id, "bc");
    // 0.9 * 0.9 = 0.81, compounded multiplicatively
    assert_eq!(paths[0].total_quality, 810);

    // the compounded quality is below 0.9, so nothing clears that bar
    let none = planner.plan(&registry, "mime/a", "mime/c", 900).unwrap();
    assert!(none.is_empty());
}

#[test]
fn test_plan_never_returns_cycles() {
    let mut registry = Registry::new();
    registry.register(cap("ab", "mime/a", "mime/b", 900)).unwrap();
    registry.register(cap("ba", "mime/b", "mime/a", 900)).unwrap();
    registry.register(cap("bc", "mime/b", "mime/c", 900)).unwrap();
    let planner = Planner::new();
    let paths = planner.plan(&registry, "mime/a", "mime/c", 0).unwrap();
    for p in &paths {
        let mut seen: Vec<&str> = Vec::new();
        for s in &p.steps {
            assert!(!seen.contains(&s.from_format.as_str()), "format visited twice");
            seen.push(s.from_format.as_str());
        }
        for s in &p.steps {
            assert_ne!(s.from_format, "mime/c", "path passes through its target");
        }
    }
}

#[test]
fn test_plan_ranks_best_first() {
    let mut registry = Registry::new();
    registry.register(cap("low", "mime/a", "mime/c", 700)).unwrap();
    registry.register(cap("high", "mime/a", "mime/c", 950)).unwrap();
    let planner = Planner::new();
    let paths = planner.plan(&registry, "mime/a", "mime/c", 0).unwrap();
    assert_eq!(paths.len(), 2);
    assert_eq!(paths[0].steps[0].converter_id, "high");
    assert_eq!(paths[1].steps[0].converter_id, "low");
    assert!(paths[0].total_quality >= paths[1].total_quality);
}

#[test]
fn test_builtin_initialization() {
    let mut registry = Registry::new();
    initialize(&mut registry).unwrap();
    assert_eq!(registry.list_all().len(), 6);
    let docx = "application/vnd.openxmlformats-officedocument.wordprocessingml.document";
    let ids = registry.find_converters(docx, "text/markdown");
    assert_eq!(ids, vec!["pandoc-docx-md".to_owned()]);
    let c = registry.get("pandoc-docx-md").unwrap();
    assert_eq!(c.quality, 900);
    assert_eq!(c.parallelism, 1);
    // alias edges are present for extensions too
    assert_eq!(registry.find_converters("docx", "md"), vec!["pandoc-docx-md".to_owned()]);
    let mut tools = registry.required_tools();
    tools.sort();
    assert_eq!(tools, vec!["magick".to_owned(), "pandoc".to_owned()]);
}

#[test]
fn test_score_path_is_quality() {
    let registry = Registry::new();
    let planner = Planner::new();
    let paths = planner.plan(&registry, "mime/x", "mime/x", 0).unwrap();
    assert_eq!(planner.score_path(&paths[0]), 1000);
}

#[test]
fn test_plan_unknown_formats_is_empty() {
    let registry = Registry::new();
    let planner = Planner::new();
    // absence of a plan is data, not an error
    let paths = planner.plan(&registry, "mime/a", "mime/b", 0).unwrap();
    assert!(paths.is_empty());
    assert!(registry.find_converters("mime/a", "mime/b").is_empty());
    assert!(registry.get_targets("mime/a").is_empty());
}

#[test]
fn test_plan_respects_hop_bound() {
    let mut registry = Registry::new();
    registry.register(cap("ab", "mime/a", "mime/b", 1000)).unwrap();
    registry.register(cap("bc", "mime/b", "mime/c", 1000)).unwrap();
    registry.register(cap("cd", "mime/c", "mime/d", 1000)).unwrap();
    registry.register(cap("de", "mime/d", "mime/e", 1000)).unwrap();
    let planner = Planner::new();

    // three hops are within the bound
    let paths = planner.plan(&registry, "mime/a", "mime/d", 0).unwrap();
    assert_eq!(paths.len(), 1);
    assert_eq!(paths[0].steps.len(), 3);
    assert_eq!(paths[0].estimated_time_ms, 3000);

    // four hops exceed it
    let paths = planner.plan(&registry, "mime/a", "mime/e", 0).unwrap();
    assert!(paths.is_empty());
}

#[test]
fn test_available_targets_cover_multi_hop_union() {
    let mut registry = Registry::new();
    registry.register(cap("ab", "mime/a", "mime/b", 900)).unwrap();
    registry.register(cap("bc", "mime/b", "mime/c", 900)).unwrap();
    registry.register(cap("cd", "mime/c", "mime/d", 900)).unwrap();
    let planner = Planner::new();

    let present = vec!["testtool".to_owned()];
    let mut formats: Vec<String> = planner
        .get_available_targets(&registry, "mime/a", &present)
        .into_iter()
        .map(|t| t.format)
        .collect();
    formats.sort();
    // the union across all hop counts up to the bound, not just direct edges
    assert_eq!(
        formats,
        vec!["mime/b".to_owned(), "mime/c".to_owned(), "mime/d".to_owned()]
    );
}

#[test]
fn test_available_targets_annotate_missing_tools() {
    let mut registry = Registry::new();
    registry.register(cap("ab", "mime/a", "mime/b", 900)).unwrap();
    let planner = Planner::new();

    let targets = planner.get_available_targets(&registry, "mime/a", &vec![]);
    assert_eq!(targets.len(), 1);
    assert!(!targets[0].available);
    assert_eq!(targets[0].missing_requirements, vec!["testtool".to_owned()]);

    let targets =
        planner.get_available_targets(&registry, "mime/a", &vec!["testtool".to_owned()]);
    assert_eq!(targets.len(), 1);
    assert!(targets[0].available);
    assert!(targets[0].missing_requirements.is_empty());
}

#[test]
fn test_plan_lists_distinct_chains() {
    let mut registry = Registry::new();
    registry.register(cap("direct", "mime/a", "mime/c", 900)).unwrap();
    registry.register(cap("ab", "mime/a", "mime/b", 900)).unwrap();
    registry.register(cap("bc", "mime/b", "mime/c", 900)).unwrap();
    let planner = Planner::new();
    let paths = planner.plan(&registry, "mime/a", "mime/c", 0).unwrap();
    assert_eq!(paths.len(), 2);
    // no chain of steps appears twice
    for k in 0..paths.len() {
        for l in k + 1..paths.len() {
            let same_len = paths[k].steps.len() == paths[l].steps.len();
            let same = same_len
                && paths[k]
                    .steps
                    .iter()
                    .zip(paths[l].steps.iter())
                    .all(|(a, b)| a.converter_id == b.converter_id);
            assert!(!same, "a chain was listed twice");
        }
    }
}
