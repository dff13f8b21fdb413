use cargo_danger::exposure::{ExposureStatus, PackageReport, ParseError};
use cargo_danger::format::{decimal, format_node, line_prefix, Charset, Prefix};
use cargo_danger::graph::DependencyGraph;
use cargo_danger::identity::PackageIdentity;
use cargo_danger::metadata::DependencyKind;
use cargo_danger::render::{
    child_handles, exposure_text, render, render_lines, seed_handles, RenderOptions,
};

fn node(name: &str) -> PackageIdentity {
    PackageIdentity::new(name, "1.0.0", "registry")
}

fn options() -> RenderOptions {
    RenderOptions {
        invert: false,
        show_all: false,
        prefix: Prefix::Indent,
        charset: Charset::Utf8,
        format: "{n} {v}".to_string(),
        duplicates_only: false,
    }
}

fn counted(name: &str, count: usize) -> PackageReport {
    PackageReport { package: node(name), status: ExposureStatus::Counted(count) }
}

/// app -> lib -> util, app -> util, app -> gen (build)
fn diamond() -> DependencyGraph {
    let g = DependencyGraph::new();
    let (g, app) = g.add_node(&node("app"));
    let (g, lib) = g.add_node(&node("lib"));
    let (g, util) = g.add_node(&node("util"));
    let (g, gen) = g.add_node(&node("gen"));
    let g = g.add_edge(app, lib, DependencyKind::Normal);
    let g = g.add_edge(lib, util, DependencyKind::Normal);
    let g = g.add_edge(app, util, DependencyKind::Normal);
    g.add_edge(app, gen, DependencyKind::Build)
}

fn cycle() -> DependencyGraph {
    let g = DependencyGraph::new();
    let (g, a) = g.add_node(&node("a"));
    let (g, b) = g.add_node(&node("b"));
    let g = g.add_edge(a, b, DependencyKind::Normal);
    g.add_edge(b, a, DependencyKind::Normal)
}

#[test]
fn numbers_in_decimal() {
    assert_eq!(decimal(0), "0");
    assert_eq!(decimal(7), "7");
    assert_eq!(decimal(10), "10");
    assert_eq!(decimal(1234567890), "1234567890");
    assert_eq!(decimal(usize::MAX), usize::MAX.to_string());
}

#[test]
fn template_fields_are_replaced() {
    let id = PackageIdentity::new("serde", "1.0.2", "crates.io");
    assert_eq!(format_node("{n} v{v} ({s}): {c}", &id, "12"), "serde v1.0.2 (crates.io): 12");
    assert_eq!(format_node("", &id, "12"), "");
    assert_eq!(format_node("{n}{n}", &id, "12"), "serdeserde");
    assert_eq!(format_node("{x} {n", &id, "12"), "{x} {n");
    assert_eq!(format_node("{{n}}", &id, "12"), "{serde}");
    assert_eq!(format_node("{c}", &id, "!"), "!");
    assert_eq!(format_node("caf\u{e9} {v}", &id, ""), "caf\u{e9} 1.0.2");
    assert_eq!(format_node("{n", &id, ""), "{n");
    assert_eq!(format_node("{}", &id, ""), "{}");
}

#[test]
fn prefixes_of_a_line() {
    assert_eq!(line_prefix(Prefix::Flat, &vec![true, false], Charset::Utf8), "");
    assert_eq!(line_prefix(Prefix::Depth, &vec![], Charset::Utf8), "0 ");
    assert_eq!(line_prefix(Prefix::Depth, &vec![true, false], Charset::Utf8), "2 ");
    assert_eq!(line_prefix(Prefix::Indent, &vec![], Charset::Utf8), "");
    assert_eq!(line_prefix(Prefix::Indent, &vec![true], Charset::Utf8), "\u{251c}\u{2500}\u{2500} ");
    assert_eq!(line_prefix(Prefix::Indent, &vec![false], Charset::Utf8), "\u{2514}\u{2500}\u{2500} ");
    assert_eq!(
        line_prefix(Prefix::Indent, &vec![true, false, true], Charset::Utf8),
        "\u{2502}       \u{251c}\u{2500}\u{2500} "
    );
    assert_eq!(line_prefix(Prefix::Indent, &vec![true, false], Charset::Ascii), "|   `-- ");
    assert_eq!(line_prefix(Prefix::Indent, &vec![false, true], Charset::Ascii), "    |-- ");
}

#[test]
fn exposure_of_a_package_in_the_reports() {
    let failed = PackageReport {
        package: node("bad"),
        status: ExposureStatus::ParseError(ParseError {
            path: "src/lib.rs".to_string(),
            reason: "expected item".to_string(),
        }),
    };
    let reports = vec![counted("a", 42), failed, counted("a", 7)];
    assert_eq!(exposure_text(&reports, &node("a")), "42");
    assert_eq!(exposure_text(&reports, &node("bad")), "!");
    assert_eq!(exposure_text(&reports, &node("absent")), "?");
}

#[test]
fn children_follow_the_edges_or_run_against_them() {
    let g = diamond();
    assert_eq!(child_handles(&g, 0, false), vec![1, 2, 3]);
    assert_eq!(child_handles(&g, 1, false), vec![2]);
    assert_eq!(child_handles(&g, 2, false), Vec::<usize>::new());
    assert_eq!(child_handles(&g, 2, true), vec![1, 0]);
    assert_eq!(child_handles(&g, 0, true), Vec::<usize>::new());
}

#[test]
fn tree_with_revisit_marked() {
    let text = render(&diamond(), &vec![], &options());
    let expected = "app 1.0.0\n\
                    \u{251c}\u{2500}\u{2500} lib 1.0.0\n\
                    \u{2502}   \u{2514}\u{2500}\u{2500} util 1.0.0\n\
                    \u{251c}\u{2500}\u{2500} util 1.0.0 (*)\n\
                    \u{2514}\u{2500}\u{2500} gen 1.0.0\n";
    assert_eq!(text, expected);
}

#[test]
fn ascii_tree_with_counts() {
    let mut o = options();
    o.charset = Charset::Ascii;
    o.format = "{n}: {c}".to_string();
    let reports = vec![counted("app", 0), counted("lib", 12), counted("util", 3)];
    let text = render(&diamond(), &reports, &o);
    let expected = "app: 0\n\
                    |-- lib: 12\n\
                    |   `-- util: 3\n\
                    |-- util: 3 (*)\n\
                    `-- gen: ?\n";
    assert_eq!(text, expected);
}

#[test]
fn every_occurrence_is_expanded_on_request() {
    let g = DependencyGraph::new();
    let (g, app) = g.add_node(&node("app"));
    let (g, lib) = g.add_node(&node("lib"));
    let (g, util) = g.add_node(&node("util"));
    let (g, base) = g.add_node(&node("base"));
    let g = g.add_edge(app, lib, DependencyKind::Normal);
    let g = g.add_edge(app, util, DependencyKind::Normal);
    let g = g.add_edge(lib, util, DependencyKind::Normal);
    let g = g.add_edge(util, base, DependencyKind::Normal);
    let mut o = options();
    o.charset = Charset::Ascii;
    o.format = "{n}".to_string();
    let truncated = "app\n\
                     |-- lib\n\
                     |   `-- util\n\
                     |       `-- base\n\
                     `-- util (*)\n";
    assert_eq!(render(&g, &vec![], &o), truncated);
    o.show_all = true;
    let full = "app\n\
                |-- lib\n\
                |   `-- util\n\
                |       `-- base\n\
                `-- util\n    \
                    `-- base\n";
    assert_eq!(render(&g, &vec![], &o), full);
}

#[test]
fn cycle_is_cut_short() {
    let mut o = options();
    o.charset = Charset::Ascii;
    o.format = "{n}".to_string();
    let expected = "a\n`-- b\n    `-- a (*)\n";
    assert_eq!(render(&cycle(), &vec![], &o), expected);
    o.show_all = true;
    assert_eq!(render(&cycle(), &vec![], &o), expected);
}

#[test]
fn depth_prefix_and_flat_list() {
    let mut o = options();
    o.format = "{n}".to_string();
    o.prefix = Prefix::Depth;
    assert_eq!(render(&diamond(), &vec![], &o), "0 app\n1 lib\n2 util\n1 util (*)\n1 gen\n");
    o.prefix = Prefix::Flat;
    assert_eq!(
        render_lines(&diamond(), &vec![], &o),
        vec!["app", "lib", "util", "util (*)", "gen"]
    );
}

#[test]
fn inverted_walk_shows_who_depends_on_a_package() {
    let g = DependencyGraph::new();
    let (g, util) = g.add_node(&node("util"));
    let (g, lib) = g.add_node(&node("lib"));
    let (g, app) = g.add_node(&node("app"));
    let g = g.add_edge(app, lib, DependencyKind::Normal);
    let g = g.add_edge(lib, util, DependencyKind::Normal);
    let g = g.add_edge(app, util, DependencyKind::Normal);
    let mut o = options();
    o.charset = Charset::Ascii;
    o.format = "{n}".to_string();
    o.invert = true;
    let expected = "util\n\
                    |-- lib\n\
                    |   `-- app\n\
                    `-- app (*)\n";
    assert_eq!(render(&g, &vec![], &o), expected);
    o.invert = false;
    assert_eq!(render(&g, &vec![], &o), "util\n");
}

#[test]
fn duplicates_only_walks_from_each_duplicate() {
    let g = DependencyGraph::new();
    let (g, app) = g.add_node(&PackageIdentity::new("app", "0.1.0", "path"));
    let (g, new) = g.add_node(&PackageIdentity::new("left-pad", "2.0", "registry"));
    let (g, mid) = g.add_node(&PackageIdentity::new("mid", "1.0", "registry"));
    let (g, old) = g.add_node(&PackageIdentity::new("left-pad", "1.0", "registry"));
    let (g, _right) = g.add_node(&PackageIdentity::new("right-pad", "1.0", "registry"));
    let g = g.add_edge(app, new, DependencyKind::Normal);
    let g = g.add_edge(app, mid, DependencyKind::Normal);
    let g = g.add_edge(mid, old, DependencyKind::Normal);
    let mut o = options();
    o.charset = Charset::Ascii;
    o.duplicates_only = true;
    o.invert = true;
    assert_eq!(seed_handles(&g, &o), vec![old, new]);
    let expected = "left-pad 1.0\n\
                    `-- mid 1.0\n    \
                        `-- app 0.1.0\n\
                    left-pad 2.0\n\
                    `-- app 0.1.0\n";
    assert_eq!(render(&g, &vec![], &o), expected);
}

#[test]
fn empty_graph_renders_nothing() {
    assert_eq!(render(&DependencyGraph::new(), &vec![], &options()), "");
    let mut o = options();
    o.duplicates_only = true;
    assert_eq!(render(&diamond(), &vec![], &o), "");
}

#[test]
fn failed_package_is_marked_and_the_others_are_counted() {
    let failed = PackageReport {
        package: node("lib"),
        status: ExposureStatus::ParseError(ParseError {
            path: "src/lib.rs".to_string(),
            reason: "expected item".to_string(),
        }),
    };
    let reports = vec![counted("app", 1), failed, counted("util", 5), counted("gen", 0)];
    let mut o = options();
    o.prefix = Prefix::Flat;
    o.format = "{n} {c}".to_string();
    assert_eq!(
        render_lines(&diamond(), &reports, &o),
        vec!["app 1", "lib !", "util 5", "util 5 (*)", "gen 0"]
    );
}
