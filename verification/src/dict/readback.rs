//! The text of a card, read again: it gives back the glosses of the card.

use crate::dict;
use crate::dict::PosModel;
use crate::pipeline;
use crate::text;
use crate::text::Sep;
use vstd::prelude::*;

verus! {

/// Whether no abbreviation of a part of speech opens `s`.
pub open spec fn unmarked(s: Seq<char>) -> bool {
    forall|i: int|
        0 <= i < dict::pos_abbrs().len() ==> !text::occurs_at(s, #[trigger] dict::pos_abbrs()[i], 0)
}

/// Whether the line of a group can be read again: it has a known part of
/// speech, or none and no gloss in front that seems to have one.
pub open spec fn readable(g: PosModel) -> bool {
    &&& dict::is_pos(g.pos)
    &&& g.gloss.len() > 0
    &&& forall|k: int| 0 <= k < g.gloss.len() ==> dict::whole_gloss(#[trigger] g.gloss[k])
    &&& g.pos.len() == 0 ==> unmarked(g.gloss[0])
}

/// Whether the lines of all groups can be read again, and told apart.
pub open spec fn all_readable(groups: Seq<PosModel>) -> bool {
    &&& forall|i: int, j: int|
        0 <= i < j < groups.len() ==> (#[trigger] groups[i]).pos != (#[trigger] groups[j]).pos
    &&& forall|i: int| 0 <= i < groups.len() ==> readable(#[trigger] groups[i])
}

/// Whether a line of glosses opens with something else than a semicolon.
pub open spec fn opens_plainly(line: Seq<char>) -> bool {
    let t = text::trim(line);
    t.len() > 0 ==> t[0] != ';' && t[0] != '；'
}

proof fn lemma_abbrs()
    ensures
        dict::pos_abbrs().len() == 16,
        forall|i: int|
            0 <= i < 16 ==> (#[trigger] dict::pos_abbrs()[i]).len() > 0 && !text::is_white(
                dict::pos_abbrs()[i][0],
            ),
        forall|i: int, k: int|
            0 <= i < 16 && 0 <= k < dict::pos_abbrs()[i].len() ==> !dict::is_break(
                #[trigger] dict::pos_abbrs()[i][k],
            ),
{
    reveal_strlit("n.");
    reveal_strlit("v.");
    reveal_strlit("vt.");
    reveal_strlit("vi.");
    reveal_strlit("adj.");
    reveal_strlit("adv.");
    reveal_strlit("art.");
    reveal_strlit("aux.v.");
    reveal_strlit("aux.");
    reveal_strlit("conj.");
    reveal_strlit("prep.");
    reveal_strlit("pron.");
    reveal_strlit("int.");
    reveal_strlit("interj.");
    reveal_strlit("num.");
    reveal_strlit("abbr.");
}

/// An abbreviation with a space behind it opens a line, and no other that takes
/// precedence does.
proof fn lemma_abbr_opens(i: int, x: Seq<char>)
    requires
        0 <= i < 16,
    ensures
        dict::opens_with(dict::pos_abbrs()[i] + seq![' '] + x, dict::pos_abbrs(), i),
{
    reveal_strlit("n.");
    reveal_strlit("v.");
    reveal_strlit("vt.");
    reveal_strlit("vi.");
    reveal_strlit("adj.");
    reveal_strlit("adv.");
    reveal_strlit("art.");
    reveal_strlit("aux.v.");
    reveal_strlit("aux.");
    reveal_strlit("conj.");
    reveal_strlit("prep.");
    reveal_strlit("pron.");
    reveal_strlit("int.");
    reveal_strlit("interj.");
    reveal_strlit("num.");
    reveal_strlit("abbr.");
    let a = dict::pos_abbrs()[i];
    let line = a + seq![' '] + x;
    assert(line.subrange(0, a.len() as int) =~= a);
    assert(line[a.len() as int] == ' ');
    assert forall|j: int| 0 <= j < i implies !text::occurs_at(
        line,
        #[trigger] dict::pos_abbrs()[j],
        0,
    ) by {
        let b = dict::pos_abbrs()[j];
        if text::occurs_at(line, b, 0) {
            let p = line.subrange(0, b.len() as int);
            assert(p[0] == line[0] && p[1] == line[1]);
            assert(line[0] == a[0] && line[1] == a[1]);
            if b.len() > 2 {
                assert(p[2] == line[2]);
            }
            if b.len() > 3 {
                assert(p[3] == line[3]);
            }
            if b.len() > 4 {
                assert(p[4] == line[4]);
            }
        }
    }
}

proof fn lemma_some_abbr_opens(line: Seq<char>, i: int)
    requires
        0 <= i < dict::pos_abbrs().len(),
        text::occurs_at(line, dict::pos_abbrs()[i], 0),
    ensures
        exists|k: int| dict::opens_with(line, dict::pos_abbrs(), k),
    decreases i,
{
    if forall|j: int| 0 <= j < i ==> !text::occurs_at(line, #[trigger] dict::pos_abbrs()[j], 0) {
        assert(dict::opens_with(line, dict::pos_abbrs(), i));
    } else {
        let j = choose|j: int|
            0 <= j < i && text::occurs_at(line, #[trigger] dict::pos_abbrs()[j], 0);
        lemma_some_abbr_opens(line, j);
    }
}

/// Where a line has no part of speech, no abbreviation opens it, and the rest is
/// all of it.
proof fn lemma_no_pos(line: Seq<char>)
    requires
        dict::pos_and_rest(line).0.len() == 0,
    ensures
        unmarked(line),
        dict::pos_and_rest(line).1 == line,
{
    lemma_abbrs();
    if exists|i: int| dict::opens_with(line, dict::pos_abbrs(), i) {
        let i = choose|i: int| dict::opens_with(line, dict::pos_abbrs(), i);
        assert(dict::opens_with(line, dict::pos_abbrs(), i));
    } else {
        assert forall|i: int| 0 <= i < dict::pos_abbrs().len() implies !text::occurs_at(
            line,
            #[trigger] dict::pos_abbrs()[i],
            0,
        ) by {
            if text::occurs_at(line, dict::pos_abbrs()[i], 0) {
                lemma_some_abbr_opens(line, i);
            }
        }
    }
}

// Groups that are read from lines

/// Whether there is a group for `pos`.
spec fn has_group(groups: Seq<PosModel>, pos: Seq<char>) -> bool {
    exists|i: int| dict::group_at(groups, pos, i)
}

proof fn lemma_add_gloss(groups: Seq<PosModel>, pos: Seq<char>, g: Seq<char>)
    requires
        all_readable(groups),
        dict::whole_gloss(g),
        dict::is_pos(pos),
        pos.len() == 0 && !has_group(groups, pos) ==> unmarked(g),
    ensures
        all_readable(dict::add_gloss(groups, pos, g)),
        has_group(dict::add_gloss(groups, pos, g), pos),
{
    let r = dict::add_gloss(groups, pos, g);
    if has_group(groups, pos) {
        let i = choose|i: int| dict::group_at(groups, pos, i);
        assert(dict::group_at(groups, pos, i));
        assert(readable(groups[i]));
        assert(r[i].gloss[0] == groups[i].gloss[0]);
        assert(readable(r[i]));
        assert(dict::group_at(r, pos, i));
    } else {
        assert forall|a: int| 0 <= a < groups.len() implies (#[trigger] groups[a]).pos != pos by {
            if groups[a].pos == pos {
                dict::lemma_first_group(groups, pos, a);
            }
        }
        assert(r.last().gloss[0] == g);
        assert(readable(r.last()));
        assert(dict::group_at(r, pos, groups.len() as int));
    }
}

proof fn lemma_add_glosses(groups: Seq<PosModel>, pos: Seq<char>, gs: Seq<Seq<char>>)
    requires
        all_readable(groups),
        forall|k: int| 0 <= k < gs.len() ==> dict::whole_gloss(#[trigger] gs[k]),
        dict::is_pos(pos),
        pos.len() == 0 && gs.len() > 0 ==> unmarked(gs[0]),
    ensures
        all_readable(dict::add_glosses(groups, pos, gs)),
        gs.len() > 0 ==> has_group(dict::add_glosses(groups, pos, gs), pos),
    decreases gs.len(),
{
    reveal_with_fuel(dict::add_glosses, 2);
    if gs.len() > 0 {
        let init = gs.drop_last();
        assert forall|k: int| 0 <= k < init.len() implies dict::whole_gloss(#[trigger] init[k]) by {
            assert(init[k] == gs[k]);
        }
        lemma_add_glosses(groups, pos, init);
        assert(dict::whole_gloss(gs[gs.len() - 1]));
        lemma_add_gloss(dict::add_glosses(groups, pos, init), pos, gs.last());
    }
}

proof fn lemma_group_lines(lines: Seq<Seq<char>>)
    requires
        forall|i: int| 0 <= i < lines.len() ==> opens_plainly(#[trigger] lines[i]),
        forall|i: int| 0 <= i < lines.len() ==> !(#[trigger] lines[i]).contains('\n'),
    ensures
        all_readable(dict::group_lines(lines)),
    decreases lines.len(),
{
    if lines.len() > 0 {
        let init = lines.drop_last();
        assert forall|i: int| 0 <= i < init.len() implies opens_plainly(#[trigger] init[i])
            && !init[i].contains('\n') by {
            assert(init[i] == lines[i]);
        }
        lemma_group_lines(init);
        let line = lines[lines.len() - 1];
        let t = text::trim(line);
        text::lemma_trim(line);
        dict::lemma_pos_and_rest(t);
        let (pos, rest) = dict::pos_and_rest(t);
        let sep = Sep::Either('；', ';');
        let gs = dict::line_glosses(rest);
        dict::lemma_line_glosses(line);
        if pos.len() == 0 && gs.len() > 0 {
            lemma_no_pos(t);
            text::lemma_fields_chars(rest, sep);
            assert(rest.contains(gs[0][0]));
            assert(opens_plainly(line));
            text::lemma_first_field(t, sep);
            assert(unmarked(gs[0])) by {
                assert forall|i: int| 0 <= i < dict::pos_abbrs().len() implies !text::occurs_at(
                    gs[0],
                    #[trigger] dict::pos_abbrs()[i],
                    0,
                ) by {
                    let a = dict::pos_abbrs()[i];
                    if text::occurs_at(gs[0], a, 0) {
                        assert(t.subrange(0, a.len() as int) =~= t.subrange(
                            0,
                            gs[0].len() as int,
                        ).subrange(0, a.len() as int));
                        assert(text::occurs_at(t, a, 0));
                    }
                }
            }
        }
        lemma_add_glosses(dict::group_lines(init), pos, gs);
    }
}

// Lines that are read from groups

proof fn lemma_new_group(groups: Seq<PosModel>, pos: Seq<char>, gs: Seq<Seq<char>>)
    requires
        forall|i: int| 0 <= i < groups.len() ==> (#[trigger] groups[i]).pos != pos,
        gs.len() > 0,
    ensures
        dict::add_glosses(groups, pos, gs) == groups.push(PosModel { pos, gloss: gs }),
    decreases gs.len(),
{
    reveal_with_fuel(dict::add_glosses, 2);
    if gs.len() == 1 {
        assert forall|i: int| !dict::group_at(groups, pos, i) by {}
        assert(gs =~= seq![gs[0]]);
    } else {
        let init = gs.drop_last();
        lemma_new_group(groups, pos, init);
        let before = groups.push(PosModel { pos, gloss: init });
        let n = groups.len() as int;
        assert(dict::group_at(before, pos, n));
        let i = choose|i: int| dict::group_at(before, pos, i);
        assert(dict::group_at(before, pos, i));
        assert(i == n) by {
            if i < n {
                assert(before[i] == groups[i]);
            }
        }
        assert(init.push(gs.last()) =~= gs);
        assert(dict::add_gloss(before, pos, gs.last()) =~= groups.push(
            PosModel { pos, gloss: gs },
        ));
    }
}

/// A line of glosses with `mark` between them, after their part of speech.
pub open spec fn parted(g: PosModel, mark: char) -> Seq<char> {
    if g.pos.len() == 0 {
        text::join(g.gloss, seq![mark])
    } else {
        g.pos + seq![' '] + text::join(g.gloss, seq![mark])
    }
}

/// A line of the glosses of a readable group, parted by semicolons of either
/// width, gives the group back, and holds no line break.
proof fn lemma_parted_line(groups: Seq<PosModel>, g: PosModel, mark: char)
    requires
        readable(g),
        mark == '；' || mark == ';',
        forall|i: int| 0 <= i < groups.len() ==> (#[trigger] groups[i]).pos != g.pos,
    ensures
        dict::add_line(groups, parted(g, mark)) == groups.push(g),
        forall|k: int| 0 <= k < parted(g, mark).len() ==> #[trigger] parted(g, mark)[k] != '\n',
{
    lemma_abbrs();
    let sep = Sep::Either('；', ';');
    let j = text::join(g.gloss, seq![mark]);
    let line = parted(g, mark);
    let first = g.gloss[0];
    let last = g.gloss[g.gloss.len() - 1];
    assert(dict::whole_gloss(first) && dict::whole_gloss(last));
    assert forall|i: int, k: int| 0 <= i < g.gloss.len() && 0 <= k < g.gloss[i].len() implies !sep.parts(
        #[trigger] g.gloss[i][k],
    ) && g.gloss[i][k] != '\n' by {
        assert(dict::whole_gloss(g.gloss[i]));
        assert(!dict::is_break(g.gloss[i][k]));
    }
    text::lemma_fields_of_join(g.gloss, mark, sep);
    text::lemma_join_ends(g.gloss, mark);
    text::lemma_join_chars(g.gloss, mark, |c: char| c == '\n');
    assert(j[0] == j.take(first.len() as int)[0]);
    assert(j.last() == j.skip(j.len() - last.len()).last());
    assert(text::is_trimmed(j));
    if g.pos.len() == 0 {
        assert(line == j);
        text::lemma_trim(line);
        assert forall|i: int| !dict::opens_with(line, dict::pos_abbrs(), i) by {
            if dict::opens_with(line, dict::pos_abbrs(), i) {
                let a = dict::pos_abbrs()[i];
                let p = line.subrange(0, a.len() as int);
                if a.len() <= first.len() {
                    assert(first.subrange(0, a.len() as int) =~= p);
                    assert(text::occurs_at(first, a, 0));
                } else {
                    assert(p[first.len() as int] == mark);
                    assert(!dict::is_break(a[first.len() as int]));
                }
            }
        }
        assert(g.pos =~= Seq::<char>::empty());
        lemma_new_group(groups, g.pos, g.gloss);
    } else {
        let i = dict::pos_abbrs().index_of(g.pos);
        let a = dict::pos_abbrs()[i];
        assert(a == g.pos);
        assert(line == a + seq![' '] + j);
        assert(line[0] == a[0]);
        assert(line.last() == j.last());
        text::lemma_trim(line);
        lemma_abbr_opens(i, j);
        let k = choose|k: int| dict::opens_with(line, dict::pos_abbrs(), k);
        assert(dict::opens_with(line, dict::pos_abbrs(), k));
        assert(k == i);
        let after = line.skip(a.len() as int);
        assert(after =~= seq![' '] + j);
        assert(after.skip(1) =~= j);
        reveal_with_fuel(text::trim_start, 2);
        assert(text::trim_start(after) == j);
        lemma_new_group(groups, g.pos, g.gloss);
        assert forall|k: int| 0 <= k < line.len() implies #[trigger] line[k] != '\n' by {
            if k < a.len() {
                assert(line[k] == a[k]);
                assert(!dict::is_break(a[k]));
            } else if k > a.len() {
                assert(line[k] == j[k - a.len() - 1]);
            }
        }
    }
}

/// The line of a readable group gives the group back, and holds no line break.
proof fn lemma_line_reads_back(groups: Seq<PosModel>, g: PosModel)
    requires
        readable(g),
        forall|i: int| 0 <= i < groups.len() ==> (#[trigger] groups[i]).pos != g.pos,
    ensures
        dict::add_line(groups, pipeline::gloss_line(g)) == groups.push(g),
        forall|k: int|
            0 <= k < pipeline::gloss_line(g).len() ==> #[trigger] pipeline::gloss_line(g)[k] != '\n',
{
    reveal_strlit("；");
    reveal_strlit(" ");
    assert("；"@ =~= seq!['；']);
    assert(" "@ =~= seq![' ']);
    lemma_parted_line(groups, g, '；');
    assert(pipeline::gloss_line(g) == parted(g, '；'));
}

/// One line with a known part of speech or none makes one group.
pub(crate) proof fn lemma_one_line(pos: Seq<char>, glosses: Seq<Seq<char>>, wide: bool)
    requires
        dict::is_pos(pos),
        glosses.len() > 0,
        forall|i: int| 0 <= i < glosses.len() ==> dict::whole_gloss(#[trigger] glosses[i]),
        pos.len() == 0 ==> unmarked(glosses[0]),
    ensures
        ({
            let mark = if wide {
                '；'
            } else {
                ';'
            };
            let rest = text::join(glosses, seq![mark]);
            let line = if pos.len() == 0 {
                rest
            } else {
                pos + seq![' '] + rest
            };
            dict::grouped(line) == seq![PosModel { pos, gloss: glosses }]
        }),
{
    let mark = if wide {
        '；'
    } else {
        ';'
    };
    let g = PosModel { pos, gloss: glosses };
    let none = Seq::<PosModel>::empty();
    lemma_parted_line(none, g, mark);
    let line = parted(g, mark);
    text::lemma_split_whole(line, Sep::One('\n'));
    reveal_with_fuel(dict::group_lines, 2);
    assert(seq![line].drop_last() =~= Seq::<Seq<char>>::empty());
    assert(none.push(g) =~= seq![g]);
}

proof fn lemma_lines_read_back(groups: Seq<PosModel>)
    requires
        all_readable(groups),
    ensures
        dict::group_lines(groups.map_values(|g: PosModel| pipeline::gloss_line(g))) == groups,
    decreases groups.len(),
{
    let lines = groups.map_values(|g: PosModel| pipeline::gloss_line(g));
    if groups.len() > 0 {
        let init = groups.drop_last();
        assert forall|i: int| 0 <= i < init.len() implies readable(#[trigger] init[i]) by {
            assert(init[i] == groups[i]);
        }
        lemma_lines_read_back(init);
        assert(lines.drop_last() =~= init.map_values(|g: PosModel| pipeline::gloss_line(g)));
        let g = groups[groups.len() - 1];
        assert forall|i: int| 0 <= i < init.len() implies (#[trigger] init[i]).pos != g.pos by {
            assert(init[i] == groups[i]);
        }
        lemma_line_reads_back(init, g);
        assert(init.push(g) =~= groups);
    } else {
        assert(groups =~= Seq::<PosModel>::empty());
    }
}

/// The glosses of a text, shown as the text of a card, are read from it again,
/// group for group: unless a line of the text opens with a semicolon, which can
/// put a gloss in front that seems to have a part of speech.
pub proof fn law_card_text_reads_back(raw: Seq<char>)
    requires
        forall|i: int|
            0 <= i < text::split(raw, Sep::One('\n')).len() ==> opens_plainly(
                #[trigger] text::split(raw, Sep::One('\n'))[i],
            ),
    ensures
        dict::grouped(pipeline::card_lines(dict::grouped(raw))) == dict::grouped(raw),
{
    let sep = Sep::One('\n');
    let raw_lines = text::split(raw, sep);
    dict::lemma_lines(raw);
    lemma_group_lines(raw_lines);
    let groups = dict::grouped(raw);
    let lines = groups.map_values(|g: PosModel| pipeline::gloss_line(g));
    lemma_lines_read_back(groups);
    reveal_strlit("\n");
    assert("\n"@ =~= seq!['\n']);
    if groups.len() > 0 {
        assert forall|i: int, j: int| 0 <= i < lines.len() && 0 <= j < lines[i].len() implies !sep.parts(
            #[trigger] lines[i][j],
        ) by {
            assert(readable(groups[i]));
            lemma_line_reads_back(Seq::empty(), groups[i]);
            assert(lines[i] == pipeline::gloss_line(groups[i]));
        }
        text::lemma_split_of_join(lines, '\n', sep);
    } else {
        let none = Seq::<char>::empty();
        assert(pipeline::card_lines(groups) =~= none);
        let ls = text::split(none, sep);
        assert(ls =~= seq![none]);
        reveal_with_fuel(dict::group_lines, 2);
        reveal_with_fuel(text::nonempty, 2);
        text::lemma_trim(none);
        lemma_abbrs();
        assert forall|i: int| !dict::opens_with(none, dict::pos_abbrs(), i) by {}
        assert(dict::pos_and_rest(none).1 == none);
        let rest_split = text::split(none, Sep::Either('；', ';'));
        assert(rest_split =~= seq![none]);
        assert(text::trim_each(rest_split) =~= seq![none]);
        assert(dict::line_glosses(none).len() == 0);
        assert(ls.drop_last() =~= Seq::<Seq<char>>::empty());
        assert(dict::group_lines(ls) =~= groups);
    }
}

proof fn lemma_longer_group(groups: Seq<PosModel>, i: int, gs: Seq<Seq<char>>)
    requires
        0 <= i < groups.len(),
        forall|j: int| 0 <= j < groups.len() && j != i ==> (#[trigger] groups[j]).pos != groups[i].pos,
    ensures
        dict::add_glosses(groups, groups[i].pos, gs) == groups.update(
            i,
            PosModel { pos: groups[i].pos, gloss: groups[i].gloss + gs },
        ),
    decreases gs.len(),
{
    let pos = groups[i].pos;
    if gs.len() == 0 {
        assert(groups[i].gloss + gs =~= groups[i].gloss);
        assert(groups.update(i, PosModel { pos, gloss: groups[i].gloss + gs }) =~= groups);
    } else {
        let init = gs.drop_last();
        lemma_longer_group(groups, i, init);
        let before = dict::add_glosses(groups, pos, init);
        assert(dict::group_at(before, pos, i)) by {
            assert forall|j: int| 0 <= j < i implies (#[trigger] before[j]).pos != pos by {
                assert(before[j] == groups[j]);
            }
        }
        let k = choose|k: int| dict::group_at(before, pos, k);
        assert(dict::group_at(before, pos, k));
        if k != i {
            assert(before[k] == groups[k]);
        }
        assert((groups[i].gloss + init).push(gs.last()) =~= groups[i].gloss + gs);
        assert(dict::add_glosses(groups, pos, gs) =~= groups.update(
            i,
            PosModel { pos, gloss: groups[i].gloss + gs },
        ));
    }
}

/// A further line of glosses goes to the group of its part of speech, behind the
/// glosses that are there; where there is none yet, it makes a new group behind
/// the others. The other groups stay as they are.
pub proof fn law_further_line(raw: Seq<char>, g: PosModel, i: int)
    requires
        readable(g),
    ensures
        ({
            let groups = dict::grouped(raw);
            let all = dict::grouped(raw + seq!['\n'] + parted(g, '；'));
            &&& 0 <= i < groups.len() && groups[i].pos == g.pos ==> all == groups.update(
                i,
                PosModel { pos: g.pos, gloss: groups[i].gloss + g.gloss },
            )
            &&& (forall|j: int| 0 <= j < groups.len() ==> (#[trigger] groups[j]).pos != g.pos)
                ==> all == groups.push(g)
        }),
{
    let sep = Sep::One('\n');
    let line = parted(g, '；');
    let groups = dict::grouped(raw);
    lemma_parted_line(Seq::empty(), g, '；');
    assert(raw + seq!['\n'] + line =~= raw.push('\n') + line);
    text::lemma_split_cat(raw, '\n', line, sep);
    text::lemma_split_whole(line, sep);
    let lines = text::split(raw, sep) + seq![line];
    assert(lines.drop_last() =~= text::split(raw, sep));
    assert(dict::grouped(raw + seq!['\n'] + line) == dict::add_line(groups, line));
    if forall|j: int| 0 <= j < groups.len() ==> (#[trigger] groups[j]).pos != g.pos {
        lemma_parted_line(groups, g, '；');
    }
    if 0 <= i < groups.len() && groups[i].pos == g.pos {
        dict::law_translation_is_well_grouped(raw);
        lemma_line_parts(g, '；');
        lemma_longer_group(groups, i, g.gloss);
    }
}

/// The part of speech and the glosses of the line of a readable group.
proof fn lemma_line_parts(g: PosModel, mark: char)
    requires
        readable(g),
        mark == '；' || mark == ';',
    ensures
        dict::pos_and_rest(text::trim(parted(g, mark))).0 == g.pos,
        dict::line_glosses(dict::pos_and_rest(text::trim(parted(g, mark))).1) == g.gloss,
{
    // A line that is read into no group at all makes the group.
    let none = Seq::<PosModel>::empty();
    lemma_parted_line(none, g, mark);
    let t = text::trim(parted(g, mark));
    let (pos, rest) = dict::pos_and_rest(t);
    let gs = dict::line_glosses(rest);
    if gs.len() == 0 {
        assert(dict::add_glosses(none, pos, gs) == none);
        assert(none.push(g).len() == 1);
    } else {
        lemma_new_group(none, pos, gs);
        let made = none.push(PosModel { pos, gloss: gs });
        assert(made == none.push(g));
        assert(made[0] == none.push(g)[0]);
    }
}

} // verus!
