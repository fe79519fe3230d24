//! What the commands print.
use vstd::prelude::*;

use crate::config::merge;
use crate::config::merge::{EffectiveConfig, NetworkPolicy, NetworkView};
use crate::config::package;
use crate::config::package::MountConfig;
use crate::runtime::image;
use crate::text;

verus! {

// ---------------------------------------------------------------------------
// Sorting
// ---------------------------------------------------------------------------

/// Whether `a` comes before `b` or equals it: by the first character in which they
/// differ, a text before its extensions.
pub open spec fn text_le(a: Seq<char>, b: Seq<char>) -> bool
    decreases a.len(),
{
    if a.len() == 0 {
        true
    } else if b.len() == 0 {
        false
    } else if a[0] == b[0] {
        text_le(a.skip(1), b.skip(1))
    } else {
        a[0] < b[0]
    }
}

/// Texts in ascending order.
pub open spec fn is_sorted(list: Seq<Seq<char>>) -> bool {
    forall|i: int, j: int| 0 <= i < j < list.len() ==> text_le(list[i], list[j])
}

/// Whether `a` comes before `b` or equals it.
fn le(a: &str, b: &str) -> (r: bool)
    ensures
        r == text_le(a@, b@),
{
    let x = text::chars_of(a);
    let y = text::chars_of(b);
    let mut i: usize = 0;
    assert(a@.skip(0) =~= a@);
    assert(b@.skip(0) =~= b@);
    loop
        invariant
            x@ == a@,
            y@ == b@,
            i <= x@.len(),
            i <= y@.len(),
            text_le(a@.skip(i as int), b@.skip(i as int)) == text_le(a@, b@),
        decreases x@.len() - i,
    {
        if i == x.len() {
            return true;
        }
        if i == y.len() {
            return false;
        }
        if x[i] != y[i] {
            return x[i] < y[i];
        }
        assert(a@.skip(i as int).skip(1) =~= a@.skip(i + 1));
        assert(b@.skip(i as int).skip(1) =~= b@.skip(i + 1));
        i = i + 1;
    }
}

proof fn text_le_total(a: Seq<char>, b: Seq<char>)
    ensures
        text_le(a, b) || text_le(b, a),
    decreases a.len(),
{
    if a.len() > 0 && b.len() > 0 && a[0] == b[0] {
        text_le_total(a.skip(1), b.skip(1));
    }
}

proof fn text_le_transitive(a: Seq<char>, b: Seq<char>, c: Seq<char>)
    requires
        text_le(a, b),
        text_le(b, c),
    ensures
        text_le(a, c),
    decreases a.len(),
{
    if a.len() > 0 && b.len() > 0 && c.len() > 0 && a[0] == b[0] && b[0] == c[0] {
        text_le_transitive(a.skip(1), b.skip(1), c.skip(1));
    }
}

/// The sorted list with `x` put in before the first greater text.
pub open spec fn put_in(sorted: Seq<Seq<char>>, x: Seq<char>) -> Seq<Seq<char>>
    decreases sorted.len(),
{
    if sorted.len() == 0 || text_le(sorted.last(), x) {
        sorted.push(x)
    } else {
        put_in(sorted.drop_last(), x).push(sorted.last())
    }
}

/// The first `k` texts in ascending order.
pub open spec fn sorted_among(list: Seq<Seq<char>>, k: nat) -> Seq<Seq<char>>
    decreases k,
{
    if k == 0 {
        Seq::empty()
    } else {
        put_in(sorted_among(list, (k - 1) as nat), list[k - 1])
    }
}

/// The texts in ascending order.
pub open spec fn sorted(list: Seq<Seq<char>>) -> Seq<Seq<char>> {
    sorted_among(list, list.len())
}

/// Puts a text in its place.
fn insert_text(list: &mut Vec<String>, s: &str)
    ensures
        text::texts(final(list)@) == put_in(text::texts(old(list)@), s@),
{
    let ghost before = text::texts(list@);
    let mut k: usize = list.len();
    let ghost mut tail: Seq<Seq<char>> = Seq::empty();
    assert(before.take(k as int) =~= before);
    assert(put_in(before, s@) + tail =~= put_in(before, s@));
    while k > 0 && !le(list[k - 1].as_str(), s)
        invariant
            text::texts(list@) == before,
            k <= list@.len(),
            tail == before.skip(k as int),
            put_in(before.take(k as int), s@) + tail == put_in(before, s@),
        decreases k,
    {
        proof {
            let head = before.take(k as int);
            assert(before[k - 1] == list@[k - 1]@);
            assert(head.last() == before[k - 1]);
            assert(head.drop_last() =~= before.take(k - 1));
            let shorter = put_in(before.take(k - 1), s@);
            assert(put_in(head, s@) == shorter.push(before[k - 1]));
            assert(before.skip(k - 1) =~= seq![before[k - 1]] + tail);
            assert(shorter.push(before[k - 1]) + tail =~= shorter + (seq![before[k - 1]] + tail));
            tail = before.skip(k - 1);
        }
        k = k - 1;
    }
    proof {
        let head = before.take(k as int);
        if k > 0 {
            assert(before[k - 1] == list@[k - 1]@);
            assert(head.last() == before[k - 1]);
        }
        assert(put_in(head, s@) == head.push(s@));
    }
    let ghost was = list@;
    list.insert(k, s.to_owned());
    assert(text::texts(list@) =~= before.take(k as int).push(s@) + before.skip(k as int)) by {
        assert(list@ =~= was.insert(k as int, list@[k as int]));
    }
}

/// The texts in ascending order.
pub fn sort_texts(list: &Vec<String>) -> (r: Vec<String>)
    ensures
        text::texts(r@) == sorted(text::texts(list@)),
{
    let ghost all = text::texts(list@);
    let mut r: Vec<String> = Vec::new();
    assert(text::texts(r@) =~= Seq::empty());
    let mut i: usize = 0;
    while i < list.len()
        invariant
            all == text::texts(list@),
            i <= list@.len(),
            text::texts(r@) == sorted_among(all, i as nat),
        decreases list@.len() - i,
    {
        assert(all[i as int] == list@[i as int]@);
        insert_text(&mut r, list[i].as_str());
        i = i + 1;
    }
    r
}

proof fn put_in_sorted(list: Seq<Seq<char>>, x: Seq<char>)
    requires
        is_sorted(list),
    ensures
        is_sorted(put_in(list, x)),
        put_in(list, x).to_multiset() == list.to_multiset().insert(x),
        forall|i: int|
            0 <= i < put_in(list, x).len() ==> list.contains(#[trigger] put_in(list, x)[i])
                || put_in(list, x)[i] == x,
    decreases list.len(),
{
    broadcast use vstd::seq_lib::group_to_multiset_ensures;

    let after = put_in(list, x);
    if list.len() == 0 || text_le(list.last(), x) {
        assert forall|i: int, j: int| 0 <= i < j < after.len() implies text_le(
            after[i],
            after[j],
        ) by {
            if j == list.len() {
                if i < list.len() - 1 {
                    assert(text_le(list[i], list[list.len() - 1]));
                    text_le_transitive(list[i], list.last(), x);
                }
            } else {
                assert(text_le(list[i], list[j]));
            }
        }
        assert forall|i: int| 0 <= i < after.len() implies list.contains(#[trigger] after[i])
            || after[i] == x by {
            if i < list.len() {
                assert(list[i] == after[i]);
            }
        }
    } else {
        let head = list.drop_last();
        let shorter = put_in(head, x);
        assert(forall|i: int, j: int| 0 <= i < j < head.len() ==> text_le(head[i], head[j])) by {
            assert forall|i: int, j: int| 0 <= i < j < head.len() implies text_le(
                head[i],
                head[j],
            ) by {
                assert(text_le(list[i], list[j]));
            }
        }
        put_in_sorted(head, x);
        text_le_total(list.last(), x);
        assert forall|i: int| 0 <= i < shorter.len() implies text_le(
            #[trigger] shorter[i],
            list.last(),
        ) && (list.contains(shorter[i]) || shorter[i] == x) by {
            if head.contains(shorter[i]) {
                let m = choose|m: int| 0 <= m < head.len() && head[m] == shorter[i];
                assert(list[m] == shorter[i]);
                assert(text_le(list[m], list[list.len() - 1]));
            }
        }
        assert forall|i: int, j: int| 0 <= i < j < after.len() implies text_le(
            after[i],
            after[j],
        ) by {
            if j < shorter.len() {
                assert(text_le(shorter[i], shorter[j]));
            } else {
                assert(text_le(shorter[i], list.last()));
            }
        }
        assert forall|i: int| 0 <= i < after.len() implies list.contains(#[trigger] after[i])
            || after[i] == x by {
            if i < shorter.len() {
                assert(after[i] == shorter[i]);
            } else {
                assert(list[list.len() - 1] == after[i]);
            }
        }
        assert(list =~= head.push(list.last()));
        assert(after.to_multiset() =~= list.to_multiset().insert(x));
    }
}

/// Sorting puts texts in ascending order and neither adds nor loses any.
pub proof fn sorting_sorts(list: Seq<Seq<char>>, k: nat)
    requires
        k <= list.len(),
    ensures
        is_sorted(sorted_among(list, k)),
        sorted_among(list, k).to_multiset() == list.take(k as int).to_multiset(),
    decreases k,
{
    broadcast use vstd::seq_lib::group_to_multiset_ensures;

    if k == 0 {
        assert(list.take(0) =~= Seq::<Seq<char>>::empty());
    } else {
        sorting_sorts(list, (k - 1) as nat);
        put_in_sorted(sorted_among(list, (k - 1) as nat), list[k - 1]);
        assert(list.take(k as int) =~= list.take(k - 1).push(list[k - 1]));
    }
}

// ---------------------------------------------------------------------------
// Reports
// ---------------------------------------------------------------------------

/// The warning that isolation is disabled.
pub fn no_isolate_warning() -> (r: String)
    ensures
        r@
            == "npxc: WARNING: --no-isolate disables per-file scoping and mounts the entire CWD read-only into the container"@,
{
    "npxc: WARNING: --no-isolate disables per-file scoping and mounts the entire CWD read-only into the container".to_owned()
}

/// The text of a boolean.
pub open spec fn bool_text(b: bool) -> Seq<char> {
    if b {
        "true"@
    } else {
        "false"@
    }
}

/// What a dry run prints.
pub open spec fn dry_run_lines(
    name: Seq<char>,
    version: Seq<char>,
    network: NetworkView,
    no_isolate: bool,
    args: Seq<Seq<char>>,
) -> Seq<Seq<char>> {
    seq![
        "package:    "@ + name,
        "version:    "@ + version,
        "image_tag:  "@ + image::image_tag_of(name, version),
        "network:    "@ + merge::network_text(network),
        "no_isolate: "@ + bool_text(no_isolate),
        "args:       "@ + text::debug_list(args),
    ]
}

/// Appends a labelled line.
fn push_line(lines: &mut Vec<String>, label: &str, value: &str)
    ensures
        text::texts(final(lines)@) == text::texts(old(lines)@).push(label@ + value@),
{
    let s = text::cat(label, value);
    text::push_text(lines, s.as_str());
}

/// What a dry run prints, line by line.
pub fn dry_run_report(
    pkg_name: &str,
    version: &str,
    effective: &EffectiveConfig,
    no_isolate: bool,
    args: &Vec<String>,
) -> (r: Vec<String>)
    ensures
        text::texts(r@) == dry_run_lines(
            pkg_name@,
            version@,
            effective.network@,
            no_isolate,
            text::texts(args@),
        ),
{
    let mut r: Vec<String> = Vec::new();
    push_line(&mut r, "package:    ", pkg_name);
    push_line(&mut r, "version:    ", version);
    push_line(&mut r, "image_tag:  ", image::image_tag(pkg_name, version).as_str());
    push_line(&mut r, "network:    ", effective.network.to_string().as_str());
    push_line(
        &mut r,
        "no_isolate: ",
        if no_isolate {
            "true"
        } else {
            "false"
        },
    );
    push_line(&mut r, "args:       ", text::debug_texts(args).as_str());
    assert(text::texts(r@) =~= dry_run_lines(
        pkg_name@,
        version@,
        effective.network@,
        no_isolate,
        text::texts(args@),
    ));
    r
}

/// Each text after the label, for the first `k` texts.
pub open spec fn labelled(label: Seq<char>, list: Seq<Seq<char>>, k: nat) -> Seq<Seq<char>>
    decreases k,
{
    if k == 0 {
        Seq::empty()
    } else {
        labelled(label, list, (k - 1) as nat).push(label + list[k - 1])
    }
}

/// The line of a declared mount.
pub open spec fn mount_line(m: package::MountView) -> Seq<char> {
    m.host + " \u{2192} "@ + m.container + " ("@ + m.mode + ")"@
}

/// The names of the environment variables that the settings give values.
pub open spec fn env_names(config: EffectiveConfig) -> Seq<Seq<char>> {
    config.env.order().map_values(|e: (Seq<char>, String)| e.0)
}

/// The allow entries of the network policy, if it has any.
pub open spec fn allow_lines(network: NetworkView) -> Seq<Seq<char>> {
    match network {
        NetworkView::Allowlist(allow) => labelled("  allow:         "@, allow, allow.len()),
        _ => Seq::empty(),
    }
}

/// The lines about the environment: names only, never values.
pub open spec fn env_lines(config: EffectiveConfig) -> Seq<Seq<char>> {
    let names = env_names(config);
    let passed = text::texts(config.env_passthrough@);
    (if names.len() > 0 {
        seq!["env:             "@ + text::debug_list(sorted(names))]
    } else {
        Seq::empty()
    }) + (if passed.len() > 0 {
        seq!["env_passthrough: "@ + text::debug_list(passed)]
    } else {
        Seq::empty()
    })
}

/// The lines about storage.
pub open spec fn storage_lines(config: EffectiveConfig) -> Seq<Seq<char>> {
    match config.storage {
        Some(s) => (if s.persist {
            seq!["storage:         persist \u{2192} /data (rw)"@]
        } else {
            Seq::empty()
        }) + (if s.writable@.len() > 0 {
            seq!["storage.writable: "@ + text::debug_list(text::texts(s.writable@))]
        } else {
            Seq::empty()
        }),
        None => Seq::empty(),
    }
}

/// The lines about declared mounts.
pub open spec fn mount_lines(config: EffectiveConfig) -> Seq<Seq<char>> {
    let shown = package::mount_views(config.mounts@).map_values(
        |m: package::MountView| mount_line(m),
    );
    labelled("mount:           "@, shown, shown.len())
}

/// What an inspection prints.
pub open spec fn inspect_lines(
    name: Seq<char>,
    version: Seq<char>,
    config: EffectiveConfig,
) -> Seq<Seq<char>> {
    seq![
        "package:         "@ + name,
        "version:         "@ + version,
        "image_tag:       "@ + image::image_tag_of(name, version),
        "container_cli:   "@ + config.container_cli@,
        "node_image:      "@ + config.node_image@,
        "network:         "@ + merge::network_text(config.network@),
    ] + allow_lines(config.network@) + seq![
        "memory:          "@ + config.memory@,
        "cpus:            "@ + config.cpus@,
        "mount_mode:      "@ + config.mount_mode@,
        "strategies:      "@ + text::debug_list(text::texts(config.strategies@)),
    ] + env_lines(config) + storage_lines(config) + mount_lines(config)
}

/// Appends each text after the label.
fn push_labelled(lines: &mut Vec<String>, label: &str, list: &Vec<String>)
    ensures
        text::texts(final(lines)@) == text::texts(old(lines)@) + labelled(
            label@,
            text::texts(list@),
            list@.len(),
        ),
{
    let ghost before = text::texts(lines@);
    let ghost all = text::texts(list@);
    let mut i: usize = 0;
    assert(before + labelled(label@, all, 0) =~= before);
    while i < list.len()
        invariant
            all == text::texts(list@),
            i <= list@.len(),
            text::texts(lines@) == before + labelled(label@, all, i as nat),
        decreases list@.len() - i,
    {
        assert(all[i as int] == list@[i as int]@);
        push_line(lines, label, list[i].as_str());
        assert(text::texts(lines@) =~= before + labelled(label@, all, (i + 1) as nat));
        i = i + 1;
    }
}

/// The names of the environment variables that the settings give values.
fn names_of_env(config: &EffectiveConfig) -> (r: Vec<String>)
    ensures
        text::texts(r@) == env_names(*config),
{
    let n = config.env.len();
    let mut r: Vec<String> = Vec::new();
    let mut i: usize = 0;
    while i < n
        invariant
            n == config.env.order().len(),
            i <= n,
            r@.len() == i,
            forall|j: int| 0 <= j < i ==> (#[trigger] r@[j])@ == config.env.order()[j].0,
        decreases n - i,
    {
        let (key, _) = config.env.entry(i);
        r.push(key.clone());
        i = i + 1;
    }
    assert(text::texts(r@) =~= env_names(*config));
    r
}

/// The lines of declared mounts, without their label.
fn shown_mounts(mounts: &Vec<MountConfig>) -> (r: Vec<String>)
    ensures
        text::texts(r@) == package::mount_views(mounts@).map_values(
            |m: package::MountView| mount_line(m),
        ),
{
    let ghost all = package::mount_views(mounts@).map_values(
        |m: package::MountView| mount_line(m),
    );
    let mut r: Vec<String> = Vec::new();
    assert(text::texts(r@) =~= all.take(0));
    let mut i: usize = 0;
    while i < mounts.len()
        invariant
            all == package::mount_views(mounts@).map_values(
                |m: package::MountView| mount_line(m),
            ),
            i <= mounts@.len(),
            text::texts(r@) == all.take(i as int),
        decreases mounts@.len() - i,
    {
        let m = &mounts[i];
        let s = text::cat(m.host.as_str(), " \u{2192} ");
        let s = text::cat(s.as_str(), m.container.as_str());
        let s = text::cat(s.as_str(), " (");
        let s = text::cat(s.as_str(), m.mode.as_str());
        let s = text::cat(s.as_str(), ")");
        assert(s@ == mount_line(m@));
        text::push_text(&mut r, s.as_str());
        assert(text::texts(r@) =~= all.take(i + 1));
        i = i + 1;
    }
    assert(all.take(i as int) =~= all);
    r
}

/// What an inspection prints, line by line: the resolved settings of a package. Of
/// the environment it shows names only.
pub fn inspect_report(pkg_name: &str, version: &str, effective: &EffectiveConfig) -> (r: Vec<
    String,
>)
    ensures
        text::texts(r@) == inspect_lines(pkg_name@, version@, *effective),
{
    let mut r: Vec<String> = Vec::new();
    push_line(&mut r, "package:         ", pkg_name);
    push_line(&mut r, "version:         ", version);
    push_line(&mut r, "image_tag:       ", image::image_tag(pkg_name, version).as_str());
    push_line(&mut r, "container_cli:   ", effective.container_cli.as_str());
    push_line(&mut r, "node_image:      ", effective.node_image.as_str());
    push_line(&mut r, "network:         ", effective.network.to_string().as_str());
    let ghost head = seq![
        "package:         "@ + pkg_name@,
        "version:         "@ + version@,
        "image_tag:       "@ + image::image_tag_of(pkg_name@, version@),
        "container_cli:   "@ + effective.container_cli@,
        "node_image:      "@ + effective.node_image@,
        "network:         "@ + merge::network_text(effective.network@),
    ];
    assert(text::texts(r@) =~= head);
    match &effective.network {
        NetworkPolicy::Allowlist { allow } => push_labelled(&mut r, "  allow:         ", allow),
        _ => {
            assert(head =~= head + allow_lines(effective.network@));
        },
    }
    let ghost upto = text::texts(r@);
    push_line(&mut r, "memory:          ", effective.memory.as_str());
    push_line(&mut r, "cpus:            ", effective.cpus.as_str());
    push_line(&mut r, "mount_mode:      ", effective.mount_mode.as_str());
    push_line(
        &mut r,
        "strategies:      ",
        text::debug_texts(&effective.strategies).as_str(),
    );
    assert(text::texts(r@) =~= upto + seq![
        "memory:          "@ + effective.memory@,
        "cpus:            "@ + effective.cpus@,
        "mount_mode:      "@ + effective.mount_mode@,
        "strategies:      "@ + text::debug_list(text::texts(effective.strategies@)),
    ]);
    let ghost upto = text::texts(r@);
    let names = names_of_env(effective);
    if names.len() > 0 {
        let ordered = sort_texts(&names);
        push_line(&mut r, "env:             ", text::debug_texts(&ordered).as_str());
    }
    if effective.env_passthrough.len() > 0 {
        push_line(
            &mut r,
            "env_passthrough: ",
            text::debug_texts(&effective.env_passthrough).as_str(),
        );
    }
    assert(text::texts(r@) =~= upto + env_lines(*effective));
    let ghost upto = text::texts(r@);
    match &effective.storage {
        Some(s) => {
            if s.persist {
                text::push_text(&mut r, "storage:         persist \u{2192} /data (rw)");
            }
            if s.writable.len() > 0 {
                push_line(&mut r, "storage.writable: ", text::debug_texts(&s.writable).as_str());
            }
        },
        None => {},
    }
    assert(text::texts(r@) =~= upto + storage_lines(*effective));
    push_labelled(&mut r, "mount:           ", &shown_mounts(&effective.mounts));
    r
}

/// The line that a build prints at its end.
pub fn built_line(pkg_name: &str, version: &str) -> (r: String)
    ensures
        r@ == "Built image: "@ + image::image_tag_of(pkg_name@, version@),
{
    text::cat("Built image: ", image::image_tag(pkg_name, version).as_str())
}

/// The order of texts is by the first character in which they differ; a text comes
/// before those that it begins.
pub proof fn texts_are_ordered_by_their_first_difference(a: Seq<char>, b: Seq<char>, k: int)
    requires
        0 <= k <= a.len(),
        k <= b.len(),
        forall|i: int| 0 <= i < k ==> a[i] == b[i],
    ensures
        k < a.len() && k < b.len() && a[k] != b[k] ==> (text_le(a, b) <==> a[k] < b[k]),
        k == a.len() ==> text_le(a, b),
        k == b.len() && k < a.len() ==> !text_le(a, b),
    decreases k,
{
    if k > 0 {
        assert(a[0] == b[0]);
        let (x, y) = (a.skip(1), b.skip(1));
        assert forall|i: int| 0 <= i < k - 1 implies x[i] == y[i] by {
            assert(x[i] == a[i + 1] && y[i] == b[i + 1]);
        }
        texts_are_ordered_by_their_first_difference(x, y, k - 1);
    }
}

proof fn labelled_lines(label: Seq<char>, list: Seq<Seq<char>>, k: nat, i: int)
    requires
        k <= list.len(),
    ensures
        labelled(label, list, k).len() == k,
        0 <= i < k ==> labelled(label, list, k)[i] == label + list[i],
    decreases k,
{
    if k > 0 {
        labelled_lines(label, list, (k - 1) as nat, i);
    }
}

/// A dry run shows the package, its version and image, the network, whether isolation
/// is disabled, and the arguments: one line each, in this order.
pub proof fn dry_runs_show_the_plan(
    name: Seq<char>,
    version: Seq<char>,
    network: NetworkView,
    no_isolate: bool,
    args: Seq<Seq<char>>,
)
    ensures
        ({
            let lines = dry_run_lines(name, version, network, no_isolate, args);
            &&& lines.len() == 6
            &&& lines[0] == "package:    "@ + name
            &&& lines[1] == "version:    "@ + version
            &&& lines[2] == "image_tag:  "@ + image::image_tag_of(name, version)
            &&& network is NoNetwork ==> lines[3] == "network:    "@ + "none"@
            &&& network matches NetworkView::Named(n) ==> lines[3] == "network:    "@ + n
            &&& network matches NetworkView::Allowlist(allow) ==> lines[3] == "network:    "@ + (
            "allowlist ("@ + text::decimal(allow.len()) + " rule(s))"@)
            &&& lines[4] == "no_isolate: "@ + (if no_isolate {
                "true"@
            } else {
                "false"@
            })
            &&& lines[5] == "args:       "@ + text::debug_list(args)
        }),
{
}

/// An inspection shows the settings, one line each: first the package, its version and
/// image, the CLI, the node image and the network; then each allow entry of an allowlist;
/// then memory, processors, the mode of the workspace and the strategies.
pub proof fn inspections_show_the_settings(
    name: Seq<char>,
    version: Seq<char>,
    config: EffectiveConfig,
    i: int,
)
    ensures
        ({
            let lines = inspect_lines(name, version, config);
            let allow = match config.network@ {
                NetworkView::Allowlist(allow) => allow,
                _ => Seq::empty(),
            };
            let n = 6 + allow.len();
            &&& lines.len() >= n + 4
            &&& lines[0] == "package:         "@ + name
            &&& lines[1] == "version:         "@ + version
            &&& lines[2] == "image_tag:       "@ + image::image_tag_of(name, version)
            &&& lines[3] == "container_cli:   "@ + config.container_cli@
            &&& lines[4] == "node_image:      "@ + config.node_image@
            &&& lines[5] == "network:         "@ + merge::network_text(config.network@)
            &&& 0 <= i < allow.len() ==> lines[6 + i] == "  allow:         "@ + allow[i]
            &&& lines[n as int] == "memory:          "@ + config.memory@
            &&& lines[(n + 1) as int] == "cpus:            "@ + config.cpus@
            &&& lines[(n + 2) as int] == "mount_mode:      "@ + config.mount_mode@
            &&& lines[(n + 3) as int] == "strategies:      "@ + text::debug_list(
                text::texts(config.strategies@),
            )
        }),
{
    if let NetworkView::Allowlist(allow) = config.network@ {
        labelled_lines("  allow:         "@, allow, allow.len(), i);
    }
}

/// After that an inspection shows the names, never the values, of the variables that
/// are set, sorted, and of those that are passed through; what is kept and what may be
/// written; and each declared mount. What there is none of has no line.
pub proof fn inspections_show_what_is_granted(
    name: Seq<char>,
    version: Seq<char>,
    config: EffectiveConfig,
    names: Seq<Seq<char>>,
    i: int,
)
    requires
        names.len() == config.env.order().len(),
        forall|j: int| 0 <= j < names.len() ==> #[trigger] names[j] == config.env.order()[j].0,
    ensures
        ({
            let lines = inspect_lines(name, version, config);
            let passed = text::texts(config.env_passthrough@);
            let m = lines.len() - config.mounts@.len();
            &&& names.len() > 0 ==> lines.contains(
                "env:             "@ + text::debug_list(sorted(names)),
            )
            &&& passed.len() > 0 ==> lines.contains("env_passthrough: "@ + text::debug_list(passed))
            &&& config.storage is Some && config.storage->0.persist ==> lines.contains(
                "storage:         persist \u{2192} /data (rw)"@,
            )
            &&& config.storage is Some && config.storage->0.writable@.len() > 0 ==> lines.contains(
                "storage.writable: "@ + text::debug_list(text::texts(config.storage->0.writable@)),
            )
            &&& 0 <= i < config.mounts@.len() ==> lines[m + i] == "mount:           "@ + (
            config.mounts@[i].host@ + " \u{2192} "@ + config.mounts@[i].container@ + " ("@
                + config.mounts@[i].mode@ + ")"@)
            &&& lines.len() == 10 + (match config.network@ {
                NetworkView::Allowlist(allow) => allow.len(),
                _ => 0,
            }) + (if names.len() > 0 {
                1int
            } else {
                0
            }) + (if passed.len() > 0 {
                1int
            } else {
                0
            }) + (if config.storage is Some && config.storage->0.persist {
                1int
            } else {
                0
            }) + (if config.storage is Some && config.storage->0.writable@.len() > 0 {
                1int
            } else {
                0
            }) + config.mounts@.len()
        }),
{
    let lines = inspect_lines(name, version, config);
    let passed = text::texts(config.env_passthrough@);
    assert(env_names(config) =~= names);
    let shown = package::mount_views(config.mounts@).map_values(
        |m: package::MountView| mount_line(m),
    );
    labelled_lines("mount:           "@, shown, shown.len(), i);
    if let NetworkView::Allowlist(allow) = config.network@ {
        labelled_lines("  allow:         "@, allow, allow.len(), 0);
    }
    let a = 10 + allow_lines(config.network@).len();
    let (e, s) = (env_lines(config), storage_lines(config));
    assert forall|j: int| 0 <= j < e.len() implies #[trigger] e[j] == lines[a + j] by {}
    assert forall|j: int| 0 <= j < s.len() implies #[trigger] s[j] == lines[a + e.len() + j] by {}
    if names.len() > 0 {
        assert(lines[a as int] == e[0]);
    }
    if passed.len() > 0 {
        assert(lines[a + e.len() - 1] == e[e.len() - 1]);
    }
    if config.storage is Some && config.storage->0.persist {
        assert(lines[(a + e.len()) as int] == s[0]);
    }
    if config.storage is Some && config.storage->0.writable@.len() > 0 {
        assert(lines[a + e.len() + s.len() - 1] == s[s.len() - 1]);
    }
    if 0 <= i < config.mounts@.len() {
        assert(shown[i] == mount_line(config.mounts@[i]@));
    }
}

} // verus!
