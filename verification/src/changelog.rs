//! Grouping parsed commits into changelog sections and rendering the
//! Markdown changelog.
use vstd::prelude::*;
use vstd::string::*;

use crate::parse::{commit_views, CommitView, ConventionalCommit};
use crate::text::{chars_eq_str, contains_seq, occurs_at, to_chars};

verus! {

/// A changelog section.
#[derive(Clone, Copy, Debug, PartialEq, Eq, Structural)]
pub enum Section {
    Features,
    BugFixes,
    Performance,
    Reverts,
    Other,
}

/// The section a commit type belongs to: `feat`, `fix`, `perf` and `revert`
/// have their own, every other type goes to `Other`.
pub open spec fn section_of(commit_type: Seq<char>) -> Section {
    if commit_type == "feat"@ {
        Section::Features
    } else if commit_type == "fix"@ {
        Section::BugFixes
    } else if commit_type == "perf"@ {
        Section::Performance
    } else if commit_type == "revert"@ {
        Section::Reverts
    } else {
        Section::Other
    }
}

/// The heading of a section.
pub open spec fn section_name(s: Section) -> Seq<char> {
    match s {
        Section::Features => "Features"@,
        Section::BugFixes => "Bug Fixes"@,
        Section::Performance => "Performance"@,
        Section::Reverts => "Reverts"@,
        Section::Other => "Other"@,
    }
}

/// The order sections appear in: what a reader of a changelog cares about
/// most comes first.
pub open spec fn section_order() -> Seq<Section> {
    seq![
        Section::Features,
        Section::BugFixes,
        Section::Performance,
        Section::Reverts,
        Section::Other,
    ]
}

/// The sections in the alphabetical order of their headings.
pub open spec fn heading_order() -> Seq<Section> {
    seq![
        Section::BugFixes,
        Section::Features,
        Section::Other,
        Section::Performance,
        Section::Reverts,
    ]
}

impl Section {
    /// The heading of this section.
    pub fn name(&self) -> (r: &'static str)
        ensures
            r@ == section_name(*self),
    {
        match self {
            Section::Features => "Features",
            Section::BugFixes => "Bug Fixes",
            Section::Performance => "Performance",
            Section::Reverts => "Reverts",
            Section::Other => "Other",
        }
    }
}

/// Which changelog section a commit type maps to.
fn section_for(commit_type: &str) -> (s: Section)
    ensures
        s == section_of(commit_type@),
{
    let t = to_chars(commit_type);
    if chars_eq_str(&t, "feat") {
        Section::Features
    } else if chars_eq_str(&t, "fix") {
        Section::BugFixes
    } else if chars_eq_str(&t, "perf") {
        Section::Performance
    } else if chars_eq_str(&t, "revert") {
        Section::Reverts
    } else {
        Section::Other
    }
}

/// The commits of `cs` that belong to section `s`, in the order they come in.
pub open spec fn in_section(cs: Seq<CommitView>, s: Section) -> Seq<CommitView>
    decreases cs.len(),
{
    if cs.len() == 0 {
        seq![]
    } else {
        let front = in_section(cs.drop_last(), s);
        if section_of(cs.last().commit_type) == s {
            front.push(cs.last())
        } else {
            front
        }
    }
}

/// The breaking commits of `cs`, in the order they come in.
pub open spec fn breaking_commits(cs: Seq<CommitView>) -> Seq<CommitView>
    decreases cs.len(),
{
    if cs.len() == 0 {
        seq![]
    } else {
        let front = breaking_commits(cs.drop_last());
        if cs.last().breaking {
            front.push(cs.last())
        } else {
            front
        }
    }
}

pub open spec fn ref_views<'a>(v: Seq<&'a ConventionalCommit>) -> Seq<CommitView> {
    v.map_values(|c: &'a ConventionalCommit| c@)
}

/// Commits grouped by changelog section. Within a group, commits keep the
/// order they were given in. A group is present only when it holds a commit.
pub struct CommitGroups<'a> {
    features: Vec<&'a ConventionalCommit>,
    bug_fixes: Vec<&'a ConventionalCommit>,
    performance: Vec<&'a ConventionalCommit>,
    reverts: Vec<&'a ConventionalCommit>,
    other: Vec<&'a ConventionalCommit>,
}

impl<'a> CommitGroups<'a> {
    /// The commits in section `s`.
    pub closed spec fn group(self, s: Section) -> Seq<CommitView> {
        match s {
            Section::Features => ref_views(self.features@),
            Section::BugFixes => ref_views(self.bug_fixes@),
            Section::Performance => ref_views(self.performance@),
            Section::Reverts => ref_views(self.reverts@),
            Section::Other => ref_views(self.other@),
        }
    }

    /// The commits in section `s` (empty when none belongs there).
    pub fn bucket(&self, s: Section) -> (r: &Vec<&'a ConventionalCommit>)
        ensures
            ref_views(r@) == self.group(s),
    {
        match s {
            Section::Features => &self.features,
            Section::BugFixes => &self.bug_fixes,
            Section::Performance => &self.performance,
            Section::Reverts => &self.reverts,
            Section::Other => &self.other,
        }
    }

    /// The group whose heading is `section`, when it holds any commit.
    pub fn get(&self, section: &str) -> (r: Option<&Vec<&'a ConventionalCommit>>)
        ensures
            r matches Some(v) ==> exists|s: Section| {
                &&& section_name(s) == section@
                &&& self.group(s).len() > 0
                &&& ref_views(v@) == self.group(s)
            },
            r is None ==> forall|s: Section| section_name(s) == section@ ==> self.group(s).len() == 0,
    {
        let t = to_chars(section);
        let s = if chars_eq_str(&t, "Features") {
            Section::Features
        } else if chars_eq_str(&t, "Bug Fixes") {
            Section::BugFixes
        } else if chars_eq_str(&t, "Performance") {
            Section::Performance
        } else if chars_eq_str(&t, "Reverts") {
            Section::Reverts
        } else if chars_eq_str(&t, "Other") {
            Section::Other
        } else {
            proof {
                assert forall|s: Section| section_name(s) != section@ by {
                    match s {
                        Section::Features => {},
                        Section::BugFixes => {},
                        Section::Performance => {},
                        Section::Reverts => {},
                        Section::Other => {},
                    }
                }
            }
            return None;
        };
        assert(section_name(s) == section@);
        proof {
            lemma_section_names_distinct();
        }
        let b = self.bucket(s);
        if b.len() == 0 {
            None
        } else {
            Some(b)
        }
    }

    /// The headings of the groups present, in the order a sorted map of
    /// headings would list them (alphabetical).
    pub fn sections(&self) -> (r: Vec<&'static str>)
        ensures
            r@.map_values(|h: &'static str| h@) == heading_order().filter(|s: Section| self.group(s).len() > 0).map_values(
                |s: Section| section_name(s),
            ),
    {
        let mut r: Vec<&'static str> = Vec::new();
        let ghost order = heading_order();
        let ghost pred = |s: Section| self.group(s).len() > 0;
        if self.bug_fixes.len() > 0 {
            r.push("Bug Fixes");
        }
        if self.features.len() > 0 {
            r.push("Features");
        }
        if self.other.len() > 0 {
            r.push("Other");
        }
        if self.performance.len() > 0 {
            r.push("Performance");
        }
        if self.reverts.len() > 0 {
            r.push("Reverts");
        }
        proof {
            reveal_with_fuel(Seq::<_>::filter, 6);
            assert(order.drop_last().drop_last().drop_last().drop_last().drop_last() =~= Seq::<Section>::empty());
            assert(order.drop_last().drop_last().drop_last().drop_last() =~= seq![Section::BugFixes]);
            assert(order.drop_last().drop_last().drop_last() =~= seq![Section::BugFixes, Section::Features]);
            assert(order.drop_last().drop_last() =~= seq![Section::BugFixes, Section::Features, Section::Other]);
            assert(order.drop_last() =~= seq![Section::BugFixes, Section::Features, Section::Other, Section::Performance]);
            assert(r@.map_values(|h: &'static str| h@) =~= order.filter(pred).map_values(|s: Section| section_name(s)));
        }
        r
    }

    /// How many groups are present.
    pub fn len(&self) -> (r: usize)
        ensures
            r == section_order().filter(|s: Section| self.group(s).len() > 0).len(),
    {
        let mut n: usize = 0;
        let ghost order = section_order();
        let ghost pred = |s: Section| self.group(s).len() > 0;
        if self.features.len() > 0 {
            n = n + 1;
        }
        if self.bug_fixes.len() > 0 {
            n = n + 1;
        }
        if self.performance.len() > 0 {
            n = n + 1;
        }
        if self.reverts.len() > 0 {
            n = n + 1;
        }
        if self.other.len() > 0 {
            n = n + 1;
        }
        proof {
            reveal_with_fuel(Seq::<_>::filter, 6);
            assert(order.drop_last().drop_last().drop_last().drop_last().drop_last() =~= Seq::<Section>::empty());
            assert(order.drop_last().drop_last().drop_last().drop_last() =~= seq![Section::Features]);
            assert(order.drop_last().drop_last().drop_last() =~= seq![Section::Features, Section::BugFixes]);
            assert(order.drop_last().drop_last() =~= seq![Section::Features, Section::BugFixes, Section::Performance]);
            assert(order.drop_last() =~= seq![Section::Features, Section::BugFixes, Section::Performance, Section::Reverts]);
        }
        n
    }
}

/// The headings are pairwise different.
proof fn lemma_section_names_distinct()
    ensures
        forall|a: Section, b: Section| section_name(a) == section_name(b) ==> a == b,
{
    reveal_strlit("Features");
    reveal_strlit("Bug Fixes");
    reveal_strlit("Performance");
    reveal_strlit("Reverts");
    reveal_strlit("Other");
    assert forall|a: Section, b: Section| section_name(a) == section_name(b) implies a == b by {
        if a != b {
            let x = section_name(a);
            let y = section_name(b);
            if x.len() == y.len() {
                assert(x[0] != y[0]);
            }
        }
    }
}

/// Groups commits by changelog section, in a stable
/// (insertion-order-within-group) order.
pub fn group_commits(commits: &[ConventionalCommit]) -> (r: CommitGroups<'_>)
    ensures
        forall|s: Section| #[trigger] r.group(s) == in_section(commit_views(commits@), s),
{
    let ghost cs = commit_views(commits@);
    let mut g = CommitGroups {
        features: Vec::new(),
        bug_fixes: Vec::new(),
        performance: Vec::new(),
        reverts: Vec::new(),
        other: Vec::new(),
    };
    let mut i: usize = 0;
    while i < commits.len()
        invariant
            i <= commits@.len(),
            cs == commit_views(commits@),
            forall|s: Section| #[trigger] g.group(s) == in_section(cs.take(i as int), s),
        decreases commits.len() - i,
    {
        let c = &commits[i];
        let s = section_for(c.commit_type.as_str());
        let ghost before = g;
        match s {
            Section::Features => g.features.push(c),
            Section::BugFixes => g.bug_fixes.push(c),
            Section::Performance => g.performance.push(c),
            Section::Reverts => g.reverts.push(c),
            Section::Other => g.other.push(c),
        }
        proof {
            let t = cs.take(i + 1);
            assert(t.drop_last() =~= cs.take(i as int));
            assert(t.last() == c@);
            assert forall|x: Section| #[trigger] g.group(x) == in_section(t, x) by {
                if x == s {
                    assert(g.group(x) =~= before.group(x).push(c@));
                } else {
                    assert(g.group(x) == before.group(x));
                }
            }
        }
        i = i + 1;
    }
    assert(cs.take(commits@.len() as int) =~= cs);
    g
}

/// How a commit reads in the changelog: `**scope:** description`, or the bare
/// description.
pub open spec fn describe_spec(c: CommitView) -> Seq<char> {
    match c.scope {
        Some(sc) => "**"@ + sc + ":** "@ + c.description,
        None => c.description,
    }
}

/// One bullet line per commit.
pub open spec fn bullets(cs: Seq<CommitView>) -> Seq<char>
    decreases cs.len(),
{
    if cs.len() == 0 {
        seq![]
    } else {
        bullets(cs.drop_last()) + "- "@ + describe_spec(cs.last()) + "\n"@
    }
}

/// A titled block of bullets, or nothing when there are no commits.
pub open spec fn block(title: Seq<char>, cs: Seq<CommitView>) -> Seq<char> {
    if cs.len() == 0 {
        seq![]
    } else {
        "### "@ + title + "\n\n"@ + bullets(cs) + "\n"@
    }
}

/// The blocks of the given sections, in that order.
pub open spec fn section_blocks(cs: Seq<CommitView>, order: Seq<Section>) -> Seq<char>
    decreases order.len(),
{
    if order.len() == 0 {
        seq![]
    } else {
        section_blocks(cs, order.drop_last()) + block(section_name(order.last()), in_section(cs, order.last()))
    }
}

/// The heading of the breaking-changes block.
pub open spec fn breaking_title() -> Seq<char> {
    "BREAKING CHANGES"@
}

/// The changelog for `cs`: a version heading, then the breaking changes, then
/// each section in reader order.
pub open spec fn render_spec(cs: Seq<CommitView>, label: Seq<char>) -> Seq<char> {
    "## "@ + label + "\n\n"@ + block(breaking_title(), breaking_commits(cs)) + section_blocks(cs, section_order())
}

/// How a commit reads in the changelog.
fn describe(commit: &ConventionalCommit) -> (r: String)
    ensures
        r@ == describe_spec(commit@),
{
    match &commit.scope {
        Some(scope) => {
            let mut out = String::from_str("**");
            out.append(scope.as_str());
            out.append(":** ");
            out.append(commit.description.as_str());
            out
        },
        None => String::from_str(commit.description.as_str()),
    }
}

/// Appends the block titled `title` holding `entries`.
fn push_block(out: &mut String, title: &str, entries: &Vec<&ConventionalCommit>)
    ensures
        final(out)@ == old(out)@ + block(title@, ref_views(entries@)),
{
    let ghost es = ref_views(entries@);
    if entries.len() == 0 {
        assert(old(out)@ + block(title@, es) =~= old(out)@);
        return;
    }
    let mut text = String::from_str("### ");
    text.append(title);
    text.append("\n\n");
    let ghost head = text@;
    assert(bullets(es.take(0)) =~= Seq::<char>::empty());
    let mut i: usize = 0;
    while i < entries.len()
        invariant
            i <= entries@.len(),
            es == ref_views(entries@),
            text@ == head + bullets(es.take(i as int)),
        decreases entries.len() - i,
    {
        let line = describe(entries[i]);
        text.append("- ");
        text.append(line.as_str());
        text.append("\n");
        proof {
            let t = es.take(i + 1);
            assert(t.drop_last() =~= es.take(i as int));
            assert(t.last() == entries@[i as int]@);
        }
        i = i + 1;
    }
    text.append("\n");
    assert(es.take(entries@.len() as int) =~= es);
    out.append(text.as_str());
}

fn section_order_list() -> (r: Vec<Section>)
    ensures
        r@ == section_order(),
{
    let r = vec![
        Section::Features,
        Section::BugFixes,
        Section::Performance,
        Section::Reverts,
        Section::Other,
    ];
    assert(r@ =~= section_order());
    r
}

/// Renders the Markdown changelog for `commits` under the heading
/// `version_label`: breaking changes first (each also listed in its own
/// section), then Features, Bug Fixes, Performance, Reverts and Other.
pub fn render_changelog(commits: &[ConventionalCommit], version_label: &str) -> (r: String)
    ensures
        r@ == render_spec(commit_views(commits@), version_label@),
{
    let ghost cs = commit_views(commits@);
    let groups = group_commits(commits);
    let mut breaking: Vec<&ConventionalCommit> = Vec::new();
    let mut i: usize = 0;
    while i < commits.len()
        invariant
            i <= commits@.len(),
            cs == commit_views(commits@),
            ref_views(breaking@) == breaking_commits(cs.take(i as int)),
        decreases commits.len() - i,
    {
        let c = &commits[i];
        proof {
            let t = cs.take(i + 1);
            assert(t.drop_last() =~= cs.take(i as int));
            assert(t.last() == c@);
        }
        if c.breaking {
            let ghost before = breaking@;
            breaking.push(c);
            assert(ref_views(breaking@) =~= ref_views(before).push(c@));
        }
        i = i + 1;
    }
    assert(cs.take(commits@.len() as int) =~= cs);

    let mut out = String::from_str("## ");
    out.append(version_label);
    out.append("\n\n");
    push_block(&mut out, "BREAKING CHANGES", &breaking);
    let ghost head = out@;
    let order = section_order_list();
    let mut k: usize = 0;
    while k < order.len()
        invariant
            k <= order@.len(),
            order@ == section_order(),
            forall|s: Section| #[trigger] groups.group(s) == in_section(cs, s),
            out@ == head + section_blocks(cs, order@.take(k as int)),
        decreases order.len() - k,
    {
        let s = order[k];
        push_block(&mut out, s.name(), groups.bucket(s));
        proof {
            let t = order@.take(k + 1);
            assert(t.drop_last() =~= order@.take(k as int));
            assert(t.last() == s);
        }
        k = k + 1;
    }
    assert(order@.take(order@.len() as int) =~= section_order());
    out
}


// ---------------------------------------------------------------------------
// Laws
// ---------------------------------------------------------------------------

/// The bullet line of one commit.
pub open spec fn bullet(c: CommitView) -> Seq<char> {
    "- "@ + describe_spec(c) + "\n"@
}

/// The sections follow one another in reader order: Features, Bug Fixes,
/// Performance, Reverts, Other.
pub proof fn law_sections_in_reader_order(cs: Seq<CommitView>)
    ensures
        section_blocks(cs, section_order()) == block(section_name(Section::Features), in_section(cs, Section::Features))
            + block(section_name(Section::BugFixes), in_section(cs, Section::BugFixes))
            + block(section_name(Section::Performance), in_section(cs, Section::Performance))
            + block(section_name(Section::Reverts), in_section(cs, Section::Reverts))
            + block(section_name(Section::Other), in_section(cs, Section::Other)),
{
    let order = section_order();
    reveal_with_fuel(section_blocks, 6);
    assert(order.drop_last().drop_last().drop_last().drop_last().drop_last() =~= Seq::<Section>::empty());
    assert(order.drop_last().drop_last().drop_last().drop_last() =~= seq![Section::Features]);
    assert(order.drop_last().drop_last().drop_last() =~= seq![Section::Features, Section::BugFixes]);
    assert(order.drop_last().drop_last() =~= seq![Section::Features, Section::BugFixes, Section::Performance]);
    assert(order.drop_last() =~= seq![Section::Features, Section::BugFixes, Section::Performance, Section::Reverts]);
    assert(Seq::<char>::empty() + block(section_name(Section::Features), in_section(cs, Section::Features))
        =~= block(section_name(Section::Features), in_section(cs, Section::Features)));
}

proof fn lemma_no_commits_in_sections(cs: Seq<CommitView>, order: Seq<Section>)
    requires
        cs.len() == 0,
    ensures
        section_blocks(cs, order) == Seq::<char>::empty(),
    decreases order.len(),
{
    if order.len() > 0 {
        lemma_no_commits_in_sections(cs, order.drop_last());
        assert(in_section(cs, order.last()).len() == 0);
        assert(Seq::<char>::empty() + Seq::<char>::empty() =~= Seq::<char>::empty());
    }
}

/// With no commits the changelog is just the version heading.
pub proof fn law_empty_changelog_is_just_the_heading(label: Seq<char>)
    ensures
        render_spec(Seq::<CommitView>::empty(), label) == "## "@ + label + "\n\n"@,
{
    let cs = Seq::<CommitView>::empty();
    lemma_no_commits_in_sections(cs, section_order());
    assert(breaking_commits(cs).len() == 0);
    assert("## "@ + label + "\n\n"@ + Seq::<char>::empty() + Seq::<char>::empty() =~= "## "@ + label + "\n\n"@);
}

/// Grouping loses and duplicates nothing: the group sizes add up to the
/// number of commits.
pub proof fn law_groups_partition_commits(cs: Seq<CommitView>)
    ensures
        in_section(cs, Section::Features).len() + in_section(cs, Section::BugFixes).len()
            + in_section(cs, Section::Performance).len() + in_section(cs, Section::Reverts).len()
            + in_section(cs, Section::Other).len() == cs.len(),
    decreases cs.len(),
{
    if cs.len() > 0 {
        law_groups_partition_commits(cs.drop_last());
    }
}

/// A commit that satisfies the section filter is kept by it.
proof fn lemma_in_section_keeps(cs: Seq<CommitView>, i: int)
    requires
        0 <= i < cs.len(),
    ensures
        in_section(cs, section_of(cs[i].commit_type)).contains(cs[i]),
    decreases cs.len(),
{
    let s = section_of(cs[i].commit_type);
    if i == cs.len() - 1 {
        assert(in_section(cs, s).last() == cs[i]);
    } else {
        lemma_in_section_keeps(cs.drop_last(), i);
        let f = in_section(cs.drop_last(), s);
        let k = choose|k: int| 0 <= k < f.len() && f[k] == cs[i];
        assert(in_section(cs, s)[k] == cs[i]);
    }
}

/// A breaking commit is kept by the breaking filter.
proof fn lemma_breaking_keeps(cs: Seq<CommitView>, i: int)
    requires
        0 <= i < cs.len(),
        cs[i].breaking,
    ensures
        breaking_commits(cs).contains(cs[i]),
    decreases cs.len(),
{
    if i == cs.len() - 1 {
        assert(breaking_commits(cs).last() == cs[i]);
    } else {
        lemma_breaking_keeps(cs.drop_last(), i);
        let f = breaking_commits(cs.drop_last());
        let k = choose|k: int| 0 <= k < f.len() && f[k] == cs[i];
        assert(breaking_commits(cs)[k] == cs[i]);
    }
}

/// An occurrence inside `b` is an occurrence inside `a + b + c`.
proof fn lemma_occurs_in_concat(a: Seq<char>, b: Seq<char>, c: Seq<char>, n: Seq<char>, i: int)
    requires
        occurs_at(b, n, i),
    ensures
        occurs_at(a + b + c, n, a.len() + i),
{
    assert((a + b + c).subrange(a.len() + i, a.len() + i + n.len()) =~= b.subrange(i, i + n.len()));
}

/// Each commit of `gs` has its bullet line in `bullets(gs)`.
proof fn lemma_bullets_contain(gs: Seq<CommitView>, j: int)
    requires
        0 <= j < gs.len(),
    ensures
        contains_seq(bullets(gs), bullet(gs[j])),
    decreases gs.len(),
{
    let front = bullets(gs.drop_last());
    assert(bullets(gs) =~= front + bullet(gs.last()) + Seq::<char>::empty());
    if j == gs.len() - 1 {
        let b = bullet(gs.last());
        assert(b.subrange(0, b.len() as int) =~= b);
        assert(occurs_at(b, bullet(gs[j]), 0));
        lemma_occurs_in_concat(front, bullet(gs.last()), Seq::<char>::empty(), bullet(gs[j]), 0);
    } else {
        lemma_bullets_contain(gs.drop_last(), j);
        let i = choose|i: int| occurs_at(front, bullet(gs[j]), i);
        lemma_occurs_in_concat(Seq::<char>::empty(), front, bullet(gs.last()), bullet(gs[j]), i);
        assert(Seq::<char>::empty() + front + bullet(gs.last()) =~= front + bullet(gs.last()));
        assert(bullets(gs) =~= front + bullet(gs.last()));
    }
}

/// Each commit of `gs` has its bullet line in the block that lists `gs`.
proof fn lemma_block_contains(title: Seq<char>, gs: Seq<CommitView>, c: CommitView)
    requires
        gs.contains(c),
    ensures
        contains_seq(block(title, gs), bullet(c)),
{
    let j = choose|j: int| 0 <= j < gs.len() && gs[j] == c;
    lemma_bullets_contain(gs, j);
    let i = choose|i: int| occurs_at(bullets(gs), bullet(c), i);
    let head = "### "@ + title + "\n\n"@;
    lemma_occurs_in_concat(head, bullets(gs), "\n"@, bullet(c), i);
    assert(block(title, gs) =~= head + bullets(gs) + "\n"@);
}

/// Every commit is listed in the block of its own section; a breaking commit
/// is listed in the breaking-changes block as well.
pub proof fn law_commit_listed_in_its_section(cs: Seq<CommitView>, i: int)
    requires
        0 <= i < cs.len(),
    ensures
        ({
            let s = section_of(cs[i].commit_type);
            contains_seq(block(section_name(s), in_section(cs, s)), bullet(cs[i]))
        }),
        cs[i].breaking ==> contains_seq(block(breaking_title(), breaking_commits(cs)), bullet(cs[i])),
{
    let s = section_of(cs[i].commit_type);
    lemma_in_section_keeps(cs, i);
    lemma_block_contains(section_name(s), in_section(cs, s), cs[i]);
    if cs[i].breaking {
        lemma_breaking_keeps(cs, i);
        lemma_block_contains(breaking_title(), breaking_commits(cs), cs[i]);
    }
}


/// Grouping distributes over concatenation: the commits of a section in
/// `a + b` are those of `a` followed by those of `b`.
pub proof fn law_grouping_distributes_over_concatenation(a: Seq<CommitView>, b: Seq<CommitView>, s: Section)
    ensures
        in_section(a + b, s) == in_section(a, s) + in_section(b, s),
    decreases b.len(),
{
    if b.len() == 0 {
        assert(a + b =~= a);
        assert(in_section(a, s) + in_section(b, s) =~= in_section(a, s));
    } else {
        law_grouping_distributes_over_concatenation(a, b.drop_last(), s);
        assert((a + b).drop_last() =~= a + b.drop_last());
        assert((a + b).last() == b.last());
        if section_of(b.last().commit_type) == s {
            assert(in_section(a, s) + in_section(b.drop_last(), s).push(b.last()) =~= (in_section(a, s)
                + in_section(b.drop_last(), s)).push(b.last()));
        }
    }
}


/// The breaking-changes block lists exactly the breaking commits, in order:
/// a commit appears there if and only if it is breaking.
pub proof fn law_breaking_block_holds_exactly_the_breaking_commits(cs: Seq<CommitView>)
    ensures
        breaking_commits(cs) == cs.filter(|c: CommitView| c.breaking),
        forall|i: int| 0 <= i < breaking_commits(cs).len() ==> (#[trigger] breaking_commits(cs)[i]).breaking,
    decreases cs.len(),
{
    reveal(Seq::filter);
    if cs.len() > 0 {
        law_breaking_block_holds_exactly_the_breaking_commits(cs.drop_last());
    }
    broadcast use vstd::seq_lib::group_filter_ensures;
    let f = cs.filter(|c: CommitView| c.breaking);
    assert forall|i: int| 0 <= i < f.len() implies (#[trigger] f[i]).breaking by {
        cs.lemma_filter_pred(|c: CommitView| c.breaking, i);
    }
}

/// Each section's group holds exactly the commits whose type maps to that
/// section, in order.
pub proof fn law_group_holds_exactly_its_section(cs: Seq<CommitView>, s: Section)
    ensures
        in_section(cs, s) == cs.filter(|c: CommitView| section_of(c.commit_type) == s),
    decreases cs.len(),
{
    reveal(Seq::filter);
    if cs.len() > 0 {
        law_group_holds_exactly_its_section(cs.drop_last(), s);
    }
}

/// `feat`, `fix`, `perf` and `revert` have sections of their own, headed
/// Features, Bug Fixes, Performance and Reverts; every other type goes to
/// Other.
pub proof fn law_section_of_each_type(t: Seq<char>)
    ensures
        section_of("feat"@) == Section::Features,
        section_of("fix"@) == Section::BugFixes,
        section_of("perf"@) == Section::Performance,
        section_of("revert"@) == Section::Reverts,
        (t != "feat"@ && t != "fix"@ && t != "perf"@ && t != "revert"@) ==> section_of(t) == Section::Other,
        section_of(t) == Section::Other ==> (t != "feat"@ && t != "fix"@ && t != "perf"@ && t != "revert"@),
        section_name(Section::Features) == "Features"@,
        section_name(Section::BugFixes) == "Bug Fixes"@,
        section_name(Section::Performance) == "Performance"@,
        section_name(Section::Reverts) == "Reverts"@,
        section_name(Section::Other) == "Other"@,
{
    reveal_strlit("feat");
    reveal_strlit("fix");
    reveal_strlit("perf");
    reveal_strlit("revert");
    assert("feat"@[1] != "fix"@[1]);
    assert("feat"@[0] != "perf"@[0]);
    assert("feat"@[0] != "revert"@[0]);
    assert("fix"@[0] != "perf"@[0]);
    assert("fix"@[0] != "revert"@[0]);
    assert("perf"@[0] != "revert"@[0]);
}

} // verus!
