//! What the fixed texts of the prompts hold and what they do not, and what follows
//! from that for the prompts.
use vstd::prelude::*;

use crate::prompt;
use crate::prompt::{
    ANSWER_SYSTEM_HEAD, ANSWER_SYSTEM_TAIL, SYSTEM_HEAD, TASK_CRITERIA_HEAD, TASK_FILES_HEAD,
    TEST_FIRST_APPROACH, VERIFICATION_HEAD, VERIFICATION_TAIL,
};
use crate::task_spec::{FileToModify, TaskSpec};
use crate::text;
use crate::tools::edit_file;

verus! {

// ---------------------------------------------------------------------------
// Texts that lack another
// ---------------------------------------------------------------------------

/// `p` does not stand in `h`.
pub open spec fn lacks(h: Seq<char>, p: Seq<char>) -> bool {
    !text::contains(h, p)
}

/// Nothing that starts in `x` is `p`, whatever follows: wherever the first
/// character of `p` stands, its character at `k` does not follow.
spec fn unlike(x: Seq<char>, p: Seq<char>, k: int) -> bool {
    forall|i: int| 0 <= i < x.len() && #[trigger] x[i] == p[0] ==> i + k < x.len() && x[i + k] != p[k]
}

/// Behind a text in which nothing starts like `p`, it is the rest that decides.
proof fn lemma_lacks_behind(x: Seq<char>, y: Seq<char>, p: Seq<char>, k: int)
    requires
        0 <= k < p.len(),
        unlike(x, p, k),
        lacks(y, p),
    ensures
        lacks(x + y, p),
{
    let h = x + y;
    if text::contains(h, p) {
        let i = choose|i: int| text::matches_at(h, p, i);
        let found = h.subrange(i, i + p.len());
        assert(found[0] == h[i] && found[k] == h[i + k]);
        if i < x.len() {
            assert(x[i] == p[0]);
            assert(h[i + k] == x[i + k]);
        } else {
            assert(y.subrange(i - x.len(), i - x.len() + p.len()) =~= found);
            assert(text::matches_at(y, p, i - x.len()));
        }
    }
}

/// Two texts that lack `p` lack it together, where the second starts with a
/// character that `p` does not have.
proof fn lemma_lacks_both(x: Seq<char>, y: Seq<char>, p: Seq<char>)
    requires
        p.len() > 0,
        lacks(x, p),
        lacks(y, p),
        y.len() > 0,
        !p.contains(y[0]),
    ensures
        lacks(x + y, p),
{
    let h = x + y;
    if text::contains(h, p) {
        let i = choose|i: int| text::matches_at(h, p, i);
        let found = h.subrange(i, i + p.len());
        if i + p.len() <= x.len() {
            assert(x.subrange(i, i + p.len()) =~= found);
            assert(text::matches_at(x, p, i));
        } else if i >= x.len() {
            assert(y.subrange(i - x.len(), i - x.len() + p.len()) =~= found);
            assert(text::matches_at(y, p, i - x.len()));
        } else {
            assert(found[x.len() - i] == y[0]);
            assert(p[x.len() - i] == y[0]);
        }
    }
}

/// An empty text lacks every other.
proof fn lemma_empty_lacks(p: Seq<char>)
    requires
        p.len() > 0,
    ensures
        lacks(Seq::empty(), p),
{
}

// ---------------------------------------------------------------------------
// The task prompt
// ---------------------------------------------------------------------------

/// What the two texts that mark the guidance are like: neither has a line feed, a
/// dash or a backquote, and the fixed texts around it have nothing that starts like
/// them.
spec fn mark(p: Seq<char>, k: int) -> bool {
    &&& 0 <= k < p.len()
    &&& !p.contains('\n') && !p.contains('-') && !p.contains('`')
    &&& p[0] != ' ' && p[0] != ':'
    &&& unlike(TASK_CRITERIA_HEAD@, p, k)
    &&& unlike(TASK_FILES_HEAD@, p, k)
    &&& unlike(VERIFICATION_HEAD@, p, k)
    &&& unlike(VERIFICATION_TAIL@, p, k)
}

/// What the guidance is known by.
pub const GUIDANCE_MARK: &'static str = "Confirm it fails";

/// The heading of the guidance.
pub const GUIDANCE_HEADING: &'static str = "## Approach";

/// The two marks are as they have to be.
#[verifier::spinoff_prover]
#[verifier::rlimit(60)]
proof fn lemma_marks()
    ensures
        mark(GUIDANCE_MARK@, 1),
        mark(GUIDANCE_HEADING@, 4),
{
    reveal_strlit("Confirm it fails");
    reveal_strlit("## Approach");
    reveal_strlit("\n\
\n\
## Acceptance Criteria\n\
\n\
");
    reveal_strlit("\n\
## Files to Modify\n\
\n\
The paths listed below are starting points for navigation — they are a map, not\n\
a complete inventory. Use the bash tool (e.g., `grep`, `find`) to locate code\n\
within and around these files. Edit exactly what the task requires and no more;\n\
prefer edit_file for mutations (its unique-match contract is safer than sed -i).\n\
\n\
");
    reveal_strlit("## Verification\n\
\n\
Run the following command to verify the task is complete:\n\
\n\
\x20   ");
    reveal_strlit("\n\
\n\
Once your new test passes and this command is green, call finish(done) immediately.\n\
Note that this command may already be green before you start — a green gate on\n\
untouched code means you have not begun, not that you are done.\n\
Do not re-verify individual acceptance criteria with extra reads or commands\n\
after a passing check — the passing check IS the verification, and every\n\
additional step spends your iteration budget without adding evidence.");
}

/// No field of the task holds the text.
pub open spec fn fields_lack(spec: TaskSpec, p: Seq<char>) -> bool {
    &&& lacks(spec.title@, p)
    &&& lacks(spec.description@, p)
    &&& forall|i: int|
        0 <= i < spec.acceptance_criteria@.len() ==> lacks(
            (#[trigger] spec.acceptance_criteria@[i])@,
            p,
        )
    &&& forall|i: int|
        0 <= i < spec.files_to_modify@.len() ==> lacks(
            (#[trigger] spec.files_to_modify@[i]).path@,
            p,
        ) && lacks(spec.files_to_modify@[i].change@, p)
    &&& lacks(spec.gate_command@, p)
}

/// A text put between a start and a line feed.
proof fn lemma_item(start: Seq<char>, middle: Seq<char>, p: Seq<char>, k: int)
    requires
        0 <= k < p.len(),
        unlike(start, p, k),
        lacks(middle, p),
        !p.contains('\n'),
    ensures
        lacks(start + middle + "\n"@, p),
{
    reveal_strlit("\n");
    lemma_line_feed(p);
    lemma_lacks_both(middle, "\n"@, p);
    lemma_lacks_behind(start, middle + "\n"@, p, k);
    assert(start + middle + "\n"@ =~= start + (middle + "\n"@));
}

/// A line feed is not like a text that has none.
proof fn lemma_line_feed(p: Seq<char>)
    requires
        p.len() > 0,
        !p.contains('\n'),
    ensures
        lacks("\n"@, p),
        "\n"@.len() == 1,
        "\n"@[0] == '\n',
        "\n\n"@ =~= "\n"@ + "\n"@,
        unlike("\n"@, p, 0),
        unlike("\n\n"@, p, 0),
{
    reveal_strlit("\n");
    reveal_strlit("\n\n");
    assert(p.contains(p[0]));
    if text::contains("\n"@, p) {
        let i = choose|i: int| text::matches_at("\n"@, p, i);
        assert("\n"@.subrange(i, i + p.len())[0] == '\n');
    }
}

/// The list of criteria lacks what they lack, and starts with a dash, if at all.
proof fn lemma_criteria(criteria: Seq<Seq<char>>, p: Seq<char>, k: int)
    requires
        mark(p, k),
        forall|i: int| 0 <= i < criteria.len() ==> lacks(#[trigger] criteria[i], p),
    ensures
        lacks(prompt::criteria_list(criteria), p),
        prompt::criteria_list(criteria).len() > 0 ==> prompt::criteria_list(criteria)[0] == '-',
    decreases criteria.len(),
{
    reveal_strlit("- ");
    if criteria.len() == 0 {
        lemma_empty_lacks(p);
    } else {
        let front = criteria.drop_last();
        assert forall|i: int| 0 <= i < front.len() implies lacks(#[trigger] front[i], p) by {
            assert(front[i] == criteria[i]);
        }
        lemma_criteria(front, p, k);
        let last = criteria[criteria.len() - 1];
        assert(p.contains(p[0]));
        assert(unlike("- "@, p, 0));
        lemma_item("- "@, last, p, 0);
        let item = "- "@ + last + "\n"@;
        assert(item[0] == '-');
        lemma_lacks_both(prompt::criteria_list(front), item, p);
        assert(prompt::criteria_list(criteria) =~= prompt::criteria_list(front) + item);
    }
}

/// The list of files lacks what they lack, and starts with a dash, if at all.
proof fn lemma_files(files: Seq<FileToModify>, p: Seq<char>, k: int)
    requires
        mark(p, k),
        forall|i: int|
            0 <= i < files.len() ==> lacks((#[trigger] files[i]).path@, p) && lacks(
                files[i].change@,
                p,
            ),
    ensures
        lacks(prompt::file_list(files), p),
        prompt::file_list(files).len() > 0 ==> prompt::file_list(files)[0] == '-',
    decreases files.len(),
{
    reveal_strlit("- `");
    reveal_strlit("`: ");
    if files.len() == 0 {
        lemma_empty_lacks(p);
    } else {
        let front = files.drop_last();
        assert forall|i: int| 0 <= i < front.len() implies lacks((#[trigger] front[i]).path@, p)
            && lacks(front[i].change@, p) by {
            assert(front[i] == files[i]);
        }
        lemma_files(front, p, k);
        let last = files[files.len() - 1];
        assert(p.contains(p[0]));
        assert(unlike("- `"@, p, 0));
        assert(unlike("`: "@, p, 0));
        lemma_item("`: "@, last.change@, p, 0);
        let tail = "`: "@ + last.change@ + "\n"@;
        assert(tail[0] == '`');
        lemma_lacks_both(last.path@, tail, p);
        lemma_lacks_behind("- `"@, last.path@ + tail, p, 0);
        let item = "- `"@ + (last.path@ + tail);
        assert(item[0] == '-');
        lemma_lacks_both(prompt::file_list(front), item, p);
        assert(prompt::file_list(files) =~= prompt::file_list(front) + item);
    }
}

/// The part of a task prompt after the guidance lacks what the command lacks.
proof fn lemma_back(spec: TaskSpec, p: Seq<char>, k: int)
    requires
        mark(p, k),
        fields_lack(spec, p),
    ensures
        lacks(prompt::task_spec_back(spec), p),
        prompt::task_spec_back(spec)[0] == '\n',
        prompt::task_spec_back(spec).len() > 0,
{
    lemma_line_feed(p);
    lemma_empty_lacks(p);
    lemma_lacks_behind(VERIFICATION_TAIL@, Seq::empty(), p, k);
    assert(VERIFICATION_TAIL@ + Seq::<char>::empty() =~= VERIFICATION_TAIL@);
    lemma_starts();
    lemma_lacks_both(spec.gate_command@, VERIFICATION_TAIL@, p);
    let rest = spec.gate_command@ + VERIFICATION_TAIL@;
    lemma_lacks_behind(VERIFICATION_HEAD@, rest, p, k);
    lemma_lacks_behind("\n"@, VERIFICATION_HEAD@ + rest, p, 0);
    assert(prompt::task_spec_back(spec) =~= "\n"@ + (VERIFICATION_HEAD@ + rest));
}

/// What the fixed texts start with.
proof fn lemma_starts()
    ensures
        VERIFICATION_TAIL@.len() > 0 && VERIFICATION_TAIL@[0] == '\n',
        TASK_CRITERIA_HEAD@.len() > 0 && TASK_CRITERIA_HEAD@[0] == '\n',
        TASK_FILES_HEAD@.len() > 0 && TASK_FILES_HEAD@[0] == '\n',
{
    reveal_strlit("\n\
\n\
## Acceptance Criteria\n\
\n\
");
    reveal_strlit("\n\
## Files to Modify\n\
\n\
The paths listed below are starting points for navigation — they are a map, not\n\
a complete inventory. Use the bash tool (e.g., `grep`, `find`) to locate code\n\
within and around these files. Edit exactly what the task requires and no more;\n\
prefer edit_file for mutations (its unique-match contract is safer than sed -i).\n\
\n\
");
    reveal_strlit("\n\
\n\
Once your new test passes and this command is green, call finish(done) immediately.\n\
Note that this command may already be green before you start — a green gate on\n\
untouched code means you have not begun, not that you are done.\n\
Do not re-verify individual acceptance criteria with extra reads or commands\n\
after a passing check — the passing check IS the verification, and every\n\
additional step spends your iteration budget without adding evidence.");
}

/// The part of a task prompt before the guidance, from the title on.
spec fn titled(spec: TaskSpec) -> Seq<char> {
    spec.title@ + ("\n\n"@ + (spec.description@ + (TASK_CRITERIA_HEAD@ + (prompt::criteria_list(
        text::views(spec.acceptance_criteria@),
    ) + (TASK_FILES_HEAD@ + (prompt::file_list(spec.files_to_modify@) + "\n"@))))))
}

/// The part of a task prompt before the guidance, from the title on, lacks what the
/// fields lack.
proof fn lemma_titled(spec: TaskSpec, p: Seq<char>, k: int)
    requires
        mark(p, k),
        fields_lack(spec, p),
    ensures
        lacks(titled(spec), p),
        prompt::task_spec_front(spec) == "## "@ + titled(spec),
{
    lemma_line_feed(p);
    lemma_starts();
    let cv = text::views(spec.acceptance_criteria@);
    assert forall|i: int| 0 <= i < cv.len() implies lacks(#[trigger] cv[i], p) by {
        assert(cv[i] == spec.acceptance_criteria@[i]@);
    }
    lemma_criteria(cv, p, k);
    lemma_files(spec.files_to_modify@, p, k);
    let files = prompt::file_list(spec.files_to_modify@);
    let criteria = prompt::criteria_list(cv);
    lemma_lacks_both(files, "\n"@, p);
    let a = files + "\n"@;
    lemma_lacks_behind(TASK_FILES_HEAD@, a, p, k);
    let b = TASK_FILES_HEAD@ + a;
    lemma_lacks_both(criteria, b, p);
    let c = criteria + b;
    lemma_lacks_behind(TASK_CRITERIA_HEAD@, c, p, k);
    let d = TASK_CRITERIA_HEAD@ + c;
    lemma_lacks_both(spec.description@, d, p);
    let e = spec.description@ + d;
    lemma_lacks_behind("\n\n"@, e, p, 0);
    let f = "\n\n"@ + e;
    assert(f[0] == '\n');
    lemma_lacks_both(spec.title@, f, p);
    lemma_front_parts(
        "## "@,
        spec.title@,
        "\n\n"@,
        spec.description@,
        TASK_CRITERIA_HEAD@,
        criteria,
        TASK_FILES_HEAD@,
        files,
        "\n"@,
    );
}

/// Nine texts put one after the other, grouped from the back.
proof fn lemma_front_parts(
    a: Seq<char>,
    b: Seq<char>,
    c: Seq<char>,
    d: Seq<char>,
    e: Seq<char>,
    f: Seq<char>,
    g: Seq<char>,
    h: Seq<char>,
    i: Seq<char>,
)
    ensures
        a + b + c + d + e + f + g + h + i == a + (b + (c + (d + (e + (f + (g + (h + i))))))),
{
    assert(a + b + c + d + e + f + g + h + i =~= a + b + c + d + e + f + g + (h + i));
    assert(a + b + c + d + e + f + g + (h + i) =~= a + b + c + d + e + f + (g + (h + i)));
    assert(a + b + c + d + e + f + (g + (h + i)) =~= a + b + c + d + e + (f + (g + (h + i))));
    assert(a + b + c + d + e + (f + (g + (h + i))) =~= a + b + c + d + (e + (f + (g + (h + i)))));
    assert(a + b + c + d + (e + (f + (g + (h + i)))) =~= a + b + c + (d + (e + (f + (g + (h
        + i))))));
    assert(a + b + c + (d + (e + (f + (g + (h + i))))) =~= a + b + (c + (d + (e + (f + (g + (h
        + i)))))));
    assert(a + b + (c + (d + (e + (f + (g + (h + i)))))) =~= a + (b + (c + (d + (e + (f + (g + (h
        + i))))))));
}

/// Where the mark stands in the guidance, and what else the fixed texts hold.
#[verifier::spinoff_prover]
#[verifier::rlimit(60)]
proof fn lemma_guidance()
    ensures
        text::matches_at(TEST_FIRST_APPROACH@, GUIDANCE_MARK@, 117),
        forall|i: int|
            0 <= i < TEST_FIRST_APPROACH@.len() && #[trigger] TEST_FIRST_APPROACH@[i] == 'C' ==> i
                == 117,
        GUIDANCE_MARK@.len() > 0 && GUIDANCE_MARK@[0] == 'C',
        text::matches_at(TEST_FIRST_APPROACH@, GUIDANCE_HEADING@, 0),
        text::matches_at(VERIFICATION_TAIL@, "finish(done) immediately"@, 60),
{
    reveal_strlit("Confirm it fails");
    reveal_strlit("## Approach");
    reveal_strlit("finish(done) immediately");
    reveal_strlit("## Approach\n\
\n\
Write a test that captures the acceptance criteria FIRST, before you change any\n\
other code, and run it. Confirm it fails, and that it fails for the reason you\n\
expect — a test that passes before you have implemented anything is testing\n\
nothing. Then implement until it passes.\n\
\n\
If the task genuinely has no test-shaped outcome (a pure refactor, a dependency\n\
bump, a docs or config change), state that in one line and go straight to the\n\
change.");
    reveal_strlit("\n\
\n\
Once your new test passes and this command is green, call finish(done) immediately.\n\
Note that this command may already be green before you start — a green gate on\n\
untouched code means you have not begun, not that you are done.\n\
Do not re-verify individual acceptance criteria with extra reads or commands\n\
after a passing check — the passing check IS the verification, and every\n\
additional step spends your iteration budget without adding evidence.");
    assert(TEST_FIRST_APPROACH@.subrange(117, 133) =~= GUIDANCE_MARK@);
    assert(TEST_FIRST_APPROACH@.subrange(0, 11) =~= GUIDANCE_HEADING@);
    assert(VERIFICATION_TAIL@.subrange(60, 84) =~= "finish(done) immediately"@);
}

/// A text stands in what is made of it and others.
proof fn lemma_stands(front: Seq<char>, part: Seq<char>, back: Seq<char>, p: Seq<char>, i: int)
    requires
        text::matches_at(part, p, i),
    ensures
        text::contains(front + part + back, p),
        text::matches_at(front + part + back, p, front.len() + i),
{
    let h = front + part + back;
    let at = front.len() + i;
    assert(h.subrange(at, at + p.len()) =~= part.subrange(i, i + p.len()));
    assert(text::matches_at(h, p, at));
}

/// The guidance stands in a task prompt in one place, where no field holds its
/// mark.
proof fn lemma_one_guidance(front: Seq<char>, back: Seq<char>, j: int)
    requires
        lacks(front, GUIDANCE_MARK@),
        lacks(back, GUIDANCE_MARK@),
        front.len() > 0,
        !GUIDANCE_MARK@.contains(front.last()),
        text::matches_at(front + TEST_FIRST_APPROACH@ + back, TEST_FIRST_APPROACH@, j),
    ensures
        j == front.len(),
{
    lemma_guidance();
    let g = TEST_FIRST_APPROACH@;
    let c = GUIDANCE_MARK@;
    let h = front + g + back;
    let o = 117;
    let q = j + o;
    assert(h.subrange(q, q + c.len()) =~= h.subrange(j, j + g.len()).subrange(o, o + c.len()));
    let found = h.subrange(q, q + c.len());
    assert(found == c);
    assert(found[0] == h[q]);
    if q < front.len() {
        if q + c.len() <= front.len() {
            assert(front.subrange(q, q + c.len()) =~= found);
            assert(text::matches_at(front, c, q));
        } else {
            assert(found[front.len() - 1 - q] == front.last());
            assert(c[front.len() - 1 - q] == front.last());
        }
    } else if q < front.len() + g.len() {
        assert(h[q] == g[q - front.len()]);
    } else {
        let b = q - front.len() - g.len();
        assert(back.subrange(b, b + c.len()) =~= found);
        assert(text::matches_at(back, c, b));
    }
}

/// One place is counted as one.
proof fn lemma_one_place(h: Seq<char>, p: Seq<char>, at: int, from: int)
    requires
        0 <= from,
        text::matches_at(h, p, at),
        forall|j: int| text::matches_at(h, p, j) ==> j == at,
    ensures
        text::places(h, p, from) == (if from <= at {
            1nat
        } else {
            0
        }),
    decreases h.len() + 1 - from,
{
    if from + p.len() <= h.len() {
        lemma_one_place(h, p, at, from + 1);
    }
}

// ---------------------------------------------------------------------------
// Laws
// ---------------------------------------------------------------------------

/// The guidance can be taken out: where no field of the task holds its mark, it
/// stands in exactly one place of the prompt, and without it the prompt is the one
/// that is made without it, which does not hold the mark.
pub proof fn law_the_guidance_can_be_taken_out(spec: TaskSpec)
    requires
        fields_lack(spec, GUIDANCE_MARK@),
    ensures
        text::places(prompt::task_spec_prompt(spec, true), TEST_FIRST_APPROACH@, 0) == 1,
        edit_file::replaced(
            prompt::task_spec_prompt(spec, true),
            TEST_FIRST_APPROACH@,
            Seq::empty(),
        ) == prompt::task_spec_prompt(spec, false),
        text::contains(prompt::task_spec_prompt(spec, true), GUIDANCE_HEADING@),
        lacks(prompt::task_spec_prompt(spec, false), GUIDANCE_MARK@),
{
    let c = GUIDANCE_MARK@;
    let g = TEST_FIRST_APPROACH@;
    let front = prompt::task_spec_front(spec);
    let back = prompt::task_spec_back(spec);
    let h = front + g + back;
    lemma_marks();
    lemma_guidance();
    lemma_back(spec, c, 1);
    lemma_titled(spec, c, 1);
    lemma_line_feed(c);
    reveal_strlit("## ");
    assert(unlike("## "@, c, 0));
    lemma_lacks_behind("## "@, titled(spec), c, 0);
    assert(front.last() == '\n');
    assert(prompt::task_spec_prompt(spec, true) == h);
    assert(h.subrange(front.len() as int, (front.len() + g.len()) as int) =~= g);
    assert(text::matches_at(h, g, front.len() as int));
    assert forall|j: int| text::matches_at(h, g, j) implies j == front.len() by {
        lemma_one_guidance(front, back, j);
    }
    lemma_one_place(h, g, front.len() as int, 0);
    text::lemma_find(h, g, 0);
    assert(text::find(h, g, 0) == Some(front.len() as int));
    assert(prompt::task_spec_prompt(spec, false) =~= front + back);
    assert(h.take(front.len() as int) + Seq::<char>::empty() + h.skip(
        (front.len() + g.len()) as int,
    ) =~= front + back);
    lemma_lacks_both(front, back, c);
    lemma_stands(front, g, back, GUIDANCE_HEADING@, 0);
}

/// With and without the guidance the prompt says to finish at once.
pub proof fn law_task_prompts_say_when_to_finish(spec: TaskSpec, test_first: bool)
    ensures
        text::contains(prompt::task_spec_prompt(spec, test_first), "finish(done) immediately"@),
{
    lemma_guidance();
    let approach = if test_first {
        TEST_FIRST_APPROACH@
    } else {
        Seq::empty()
    };
    let front = prompt::task_spec_front(spec) + approach + "\n"@ + VERIFICATION_HEAD@
        + spec.gate_command@;
    lemma_stands(front, VERIFICATION_TAIL@, Seq::empty(), "finish(done) immediately"@, 60);
    assert(front + VERIFICATION_TAIL@ + Seq::<char>::empty() =~= prompt::task_spec_prompt(
        spec,
        test_first,
    ));
}

/// Without the guidance its heading is not there, where no field of the task holds
/// it and the title does not make it up by starting with the word.
pub proof fn law_no_heading_without_the_guidance(spec: TaskSpec)
    requires
        fields_lack(spec, GUIDANCE_HEADING@),
        !"Approach"@.is_prefix_of(spec.title@),
    ensures
        lacks(prompt::task_spec_prompt(spec, false), GUIDANCE_HEADING@),
{
    let p = GUIDANCE_HEADING@;
    let front = prompt::task_spec_front(spec);
    let back = prompt::task_spec_back(spec);
    lemma_marks();
    lemma_back(spec, p, 4);
    lemma_titled(spec, p, 4);
    reveal_strlit("## ");
    reveal_strlit("## Approach");
    reveal_strlit("Approach");
    let t = titled(spec);
    if text::contains(front, p) {
        let i = choose|i: int| text::matches_at(front, p, i);
        let found = front.subrange(i, i + p.len());
        assert(found[0] == front[i] && found[1] == front[i + 1]);
        if i >= 3 {
            assert(t.subrange(i - 3, i - 3 + p.len()) =~= found);
            assert(text::matches_at(t, p, i - 3));
        } else if i == 0 {
            assert forall|j: int| 0 <= j < 8 implies t[j] == "Approach"@[j] by {
                assert(found[j + 3] == p[j + 3]);
                assert(front[j + 3] == t[j]);
            }
            lemma_title_first(spec);
        }
    }
    assert(prompt::task_spec_prompt(spec, false) =~= front + back);
    lemma_lacks_both(front, back, p);
}

/// A title comes first: where the prompt goes on from it with the word, the title
/// starts with the word.
proof fn lemma_title_first(spec: TaskSpec)
    requires
        titled(spec).len() >= 8,
        forall|j: int| 0 <= j < 8 ==> titled(spec)[j] == "Approach"@[j],
    ensures
        "Approach"@.is_prefix_of(spec.title@),
{
    reveal_strlit("Approach");
    reveal_strlit("\n\n");
    let n = spec.title@.len();
    if n < 8 {
        assert(titled(spec)[n as int] == '\n');
        assert("Approach"@[n as int] != '\n');
    } else {
        assert("Approach"@ =~= spec.title@.subrange(0, 8)) by {
            assert forall|j: int| 0 <= j < 8 implies "Approach"@[j] == spec.title@[j] by {
                assert(titled(spec)[j] == spec.title@[j]);
            }
        }
    }
}

/// Where the texts of the two system prompts part.
#[verifier::spinoff_prover]
#[verifier::rlimit(60)]
proof fn lemma_heads()
    ensures
        SYSTEM_HEAD@.len() > 30 && ANSWER_SYSTEM_HEAD@.len() > 30,
        SYSTEM_HEAD@[30] != ANSWER_SYSTEM_HEAD@[30],
{
    reveal_strlit("# Role\n\
\n\
You are an autonomous coding agent operating inside a confined workspace.\n\
Every path you emit or resolve is workspace-relative — the workspace root is\n\
your world, and there is no filesystem outside it that you should touch.\n\
\n\
# Tools available\n\
\n\
");
    reveal_strlit("# Role\n\
\n\
You are an autonomous read-only analyst operating inside a confined\n\
workspace. Every path you emit or resolve is workspace-relative — the\n\
workspace root is your world, and there is no filesystem outside it that you\n\
should touch. Your deliverable is DATA, not a change: you investigate the\n\
workspace and report a structured result.\n\
\n\
# Tools available\n\
\n\
");
}

/// The two system prompts differ, whatever tools and checks there are.
pub proof fn law_the_system_prompts_differ(
    tools: Seq<prompt::ToolLine>,
    check: Option<Seq<char>>,
    others: Seq<prompt::ToolLine>,
)
    ensures
        prompt::system_prompt(tools, check) != prompt::answer_system_prompt(others),
{
    lemma_heads();
    assert(prompt::system_prompt(tools, check)[30] == SYSTEM_HEAD@[30]);
    assert(prompt::answer_system_prompt(others)[30] == ANSWER_SYSTEM_HEAD@[30]);
}

/// The disposition of a run whose task was done before, which answer mode has not.
pub const SATISFIED: &'static str = "already_satisfied";

/// The disposition of a run that made a change, which answer mode has not.
pub const DONE: &'static str = "`done`";

/// No text in which the character that `p` has at `a` is never followed by the one
/// that it has next holds `p`.
proof fn lemma_lacks(x: Seq<char>, p: Seq<char>, a: int)
    requires
        0 <= a < p.len() - 1,
        forall|i: int| 0 <= i < x.len() - 1 && #[trigger] x[i] == p[a] ==> x[i + 1] != p[a + 1],
    ensures
        lacks(x, p),
{
    if text::contains(x, p) {
        let i = choose|i: int| text::matches_at(x, p, i);
        let found = x.subrange(i, i + p.len());
        assert(found[a] == x[i + a] && found[a + 1] == x[i + a + 1]);
    }
}

/// What the head of the answer-mode system prompt lacks.
#[verifier::spinoff_prover]
#[verifier::rlimit(60)]
proof fn lemma_answer_head()
    ensures
        lacks(ANSWER_SYSTEM_HEAD@, SATISFIED@),
        lacks(ANSWER_SYSTEM_HEAD@, DONE@),
{
    reveal_strlit("already_satisfied");
    reveal_strlit("`done`");
    reveal_strlit("# Role\n\
\n\
You are an autonomous read-only analyst operating inside a confined\n\
workspace. Every path you emit or resolve is workspace-relative — the\n\
workspace root is your world, and there is no filesystem outside it that you\n\
should touch. Your deliverable is DATA, not a change: you investigate the\n\
workspace and report a structured result.\n\
\n\
# Tools available\n\
\n\
");
    lemma_lacks(ANSWER_SYSTEM_HEAD@, SATISFIED@, 7);
    lemma_lacks(ANSWER_SYSTEM_HEAD@, DONE@, 0);
}

/// What the rest of the answer-mode system prompt lacks.
#[verifier::spinoff_prover]
#[verifier::rlimit(100)]
proof fn lemma_answer_tail()
    ensures
        lacks(ANSWER_SYSTEM_TAIL@, SATISFIED@),
        lacks(ANSWER_SYSTEM_TAIL@, DONE@),
        ANSWER_SYSTEM_TAIL@.len() > 0 && ANSWER_SYSTEM_TAIL@[0] == '\n',
        !SATISFIED@.contains('\n') && !DONE@.contains('\n'),
        SATISFIED@.len() > 0 && DONE@.len() > 0,
{
    reveal_strlit("already_satisfied");
    reveal_strlit("`done`");
    reveal_strlit("\n\
# Read-only contract\n\
\n\
This run must not modify the workspace. The harness observed the working tree\n\
before your first turn and observes it again when you finish: an accepted\n\
answer REQUIRES the tree to be unchanged since the run started. A modified\n\
tree is rejected and fed back to you — revert your edits (restore tracked\n\
files, delete files you created) and finish again.\n\
\n\
That constraint is on the WORKSPACE, not on your thinking. Read, list, search\n\
and run read-only shell commands freely. Do not write, move, or delete files,\n\
and do not run commands that mutate the tree or its git state.\n\
\n\
# Workflow\n\
\n\
Orient before you conclude. List and read enough of the workspace to ground\n\
the answer in what is actually there, and prefer citing a file and line you\n\
read over recalling something you did not. Then assemble the result payload\n\
the task's result schema describes, and finish.\n\
\n\
# Steering semantics\n\
\n\
Tool results that come back with `is_error: true` are recoverable guidance,\n\
not fatal errors. Read the message carefully, adjust your approach, and try\n\
again. Do not give up because a single tool call returned an error.\n\
\n\
Long tool outputs are truncated in your view. When a result advertises a\n\
full-output path (for example, \"full output at <path>\"), you can read the\n\
untruncated contents via `read_file` on that path when the inline slice is\n\
not enough.\n\
\n\
# Disposition guidance\n\
\n\
This run accepts exactly three terminal dispositions:\n\
\n\
- `answer` — you investigated the question and have the deliverable. Supply a\n\
\x20 `result` that conforms to the run's configured result schema; the harness\n\
\x20 validates it and feeds any validation errors back to you rather than\n\
\x20 terminating the run. The working tree must be unchanged since the run\n\
\x20 started.\n\
- `blocked` — the question or the environment is the problem: retrying the\n\
\x20 same run unchanged is guaranteed not to produce an answer until a human\n\
\x20 makes a decision. State exactly what decision is needed.\n\
- `failed` — the attempt is the problem: something in how *this* run went\n\
\x20 wrong, and a fresh attempt might succeed. Summarize what went wrong.");
    lemma_lacks(ANSWER_SYSTEM_TAIL@, SATISFIED@, 7);
    lemma_lacks(ANSWER_SYSTEM_TAIL@, DONE@, 0);
}

/// The dispositions that the rest of the answer-mode system prompt names.
#[verifier::spinoff_prover]
#[verifier::rlimit(100)]
proof fn lemma_answer_names()
    ensures
        text::matches_at(ANSWER_SYSTEM_TAIL@, "`answer`"@, 1444),
        text::matches_at(ANSWER_SYSTEM_TAIL@, "`blocked`"@, 1752),
        text::matches_at(ANSWER_SYSTEM_TAIL@, "`failed`"@, 1960),
{
    reveal_strlit("`answer`");
    reveal_strlit("`blocked`");
    reveal_strlit("`failed`");
    reveal_strlit("\n\
# Read-only contract\n\
\n\
This run must not modify the workspace. The harness observed the working tree\n\
before your first turn and observes it again when you finish: an accepted\n\
answer REQUIRES the tree to be unchanged since the run started. A modified\n\
tree is rejected and fed back to you — revert your edits (restore tracked\n\
files, delete files you created) and finish again.\n\
\n\
That constraint is on the WORKSPACE, not on your thinking. Read, list, search\n\
and run read-only shell commands freely. Do not write, move, or delete files,\n\
and do not run commands that mutate the tree or its git state.\n\
\n\
# Workflow\n\
\n\
Orient before you conclude. List and read enough of the workspace to ground\n\
the answer in what is actually there, and prefer citing a file and line you\n\
read over recalling something you did not. Then assemble the result payload\n\
the task's result schema describes, and finish.\n\
\n\
# Steering semantics\n\
\n\
Tool results that come back with `is_error: true` are recoverable guidance,\n\
not fatal errors. Read the message carefully, adjust your approach, and try\n\
again. Do not give up because a single tool call returned an error.\n\
\n\
Long tool outputs are truncated in your view. When a result advertises a\n\
full-output path (for example, \"full output at <path>\"), you can read the\n\
untruncated contents via `read_file` on that path when the inline slice is\n\
not enough.\n\
\n\
# Disposition guidance\n\
\n\
This run accepts exactly three terminal dispositions:\n\
\n\
- `answer` — you investigated the question and have the deliverable. Supply a\n\
\x20 `result` that conforms to the run's configured result schema; the harness\n\
\x20 validates it and feeds any validation errors back to you rather than\n\
\x20 terminating the run. The working tree must be unchanged since the run\n\
\x20 started.\n\
- `blocked` — the question or the environment is the problem: retrying the\n\
\x20 same run unchanged is guaranteed not to produce an answer until a human\n\
\x20 makes a decision. State exactly what decision is needed.\n\
- `failed` — the attempt is the problem: something in how *this* run went\n\
\x20 wrong, and a fresh attempt might succeed. Summarize what went wrong.");
    assert(ANSWER_SYSTEM_TAIL@.subrange(1444, 1452) =~= "`answer`"@);
    assert(ANSWER_SYSTEM_TAIL@.subrange(1752, 1761) =~= "`blocked`"@);
    assert(ANSWER_SYSTEM_TAIL@.subrange(1960, 1968) =~= "`failed`"@);
}

/// The answer-mode system prompt names its three dispositions, whatever tools there
/// are, and without tools names neither of the other two.
pub proof fn law_answer_mode_names_its_dispositions(tools: Seq<prompt::ToolLine>)
    ensures
        text::contains(prompt::answer_system_prompt(tools), "`answer`"@),
        text::contains(prompt::answer_system_prompt(tools), "`blocked`"@),
        text::contains(prompt::answer_system_prompt(tools), "`failed`"@),
        lacks(prompt::answer_system_prompt(Seq::empty()), SATISFIED@),
        lacks(prompt::answer_system_prompt(Seq::empty()), DONE@),
{
    lemma_answer_names();
    lemma_answer_head();
    lemma_answer_tail();
    let front = ANSWER_SYSTEM_HEAD@ + prompt::tool_list(tools);
    let tail = ANSWER_SYSTEM_TAIL@;
    lemma_stands(front, tail, Seq::empty(), "`answer`"@, 1444);
    lemma_stands(front, tail, Seq::empty(), "`blocked`"@, 1752);
    lemma_stands(front, tail, Seq::empty(), "`failed`"@, 1960);
    assert(front + tail + Seq::<char>::empty() =~= prompt::answer_system_prompt(tools));
    let bare = prompt::answer_system_prompt(Seq::empty());
    assert(bare =~= ANSWER_SYSTEM_HEAD@ + tail);
    lemma_lacks_both(ANSWER_SYSTEM_HEAD@, tail, SATISFIED@);
    lemma_lacks_both(ANSWER_SYSTEM_HEAD@, tail, DONE@);
}

} // verus!
