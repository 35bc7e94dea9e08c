//! Page logic that decides text and class names; the page itself applies them.

use vstd::prelude::*;
use crate::protocol::{Direction, Snake, SnakeView};
use crate::text::{
    chars_of, decimal, escape_html, is_space, is_white_space, push_char, spec_escape_html,
    str_eq,
};

verus! {

/// The screens of the page, in the order they are laid out.
#[derive(Clone, Copy, PartialEq, Eq, Structural, Debug)]
pub enum Stage {
    Start,
    Host,
    Join,
    Game,
}

/// The element id of a screen.
pub open spec fn spec_stage_id(stage: Stage) -> Seq<char> {
    match stage {
        Stage::Start => "start-screen"@,
        Stage::Host => "host-screen"@,
        Stage::Join => "join-screen"@,
        Stage::Game => "game-screen"@,
    }
}

/// The classes a screen always has.
pub open spec fn spec_stage_base(stage: Stage) -> Seq<char> {
    match stage {
        Stage::Start => "stage"@,
        Stage::Host => "stage flow-screen"@,
        Stage::Join => "stage flow-screen"@,
        Stage::Game => "stage game-screen"@,
    }
}

/// The element id of a screen.
pub fn stage_id(stage: Stage) -> (id: &'static str)
    ensures
        id@ == spec_stage_id(stage),
{
    match stage {
        Stage::Start => "start-screen",
        Stage::Host => "host-screen",
        Stage::Join => "join-screen",
        Stage::Game => "game-screen",
    }
}

/// The class names of `stage` when the screen with id `active_id` is shown: its base
/// classes, followed by ` active` when `active_id` is its own id.
pub open spec fn spec_stage_class(stage: Stage, active_id: Seq<char>) -> Seq<char> {
    if spec_stage_id(stage) == active_id {
        spec_stage_base(stage) + " active"@
    } else {
        spec_stage_base(stage)
    }
}

/// Whether a class list ends with the class `active`.
pub open spec fn ends_active(class: Seq<char>) -> bool {
    class.len() >= 7 && class.subrange(class.len() - 7, class.len() as int) == " active"@
}

/// The screens have the element ids `start-screen`, `host-screen`, `join-screen` and
/// `game-screen`, no two alike; a screen is marked `active` exactly when the id shown is
/// its own, so showing a screen by its id marks that screen and no other.
pub proof fn lemma_stage_shown(stage: Stage, other: Stage, active_id: Seq<char>)
    ensures
        spec_stage_id(Stage::Start) == "start-screen"@,
        spec_stage_id(Stage::Host) == "host-screen"@,
        spec_stage_id(Stage::Join) == "join-screen"@,
        spec_stage_id(Stage::Game) == "game-screen"@,
        stage != other ==> spec_stage_id(stage) != spec_stage_id(other),
        ends_active(spec_stage_class(stage, active_id)) <==> active_id == spec_stage_id(stage),
        ends_active(spec_stage_class(stage, spec_stage_id(stage))),
        stage != other ==> !ends_active(spec_stage_class(other, spec_stage_id(stage))),
{
    reveal_strlit("start-screen");
    reveal_strlit("host-screen");
    reveal_strlit("join-screen");
    reveal_strlit("game-screen");
    reveal_strlit("stage");
    reveal_strlit("stage flow-screen");
    reveal_strlit("stage game-screen");
    reveal_strlit(" active");
    lemma_stage_class_ends(stage, active_id);
    lemma_stage_class_ends(other, spec_stage_id(stage));
    lemma_stage_class_ends(stage, spec_stage_id(stage));
    if stage != other {
        lemma_stage_ids_differ(stage, other);
    }
}

proof fn lemma_stage_ids_differ(a: Stage, b: Stage)
    requires
        a != b,
    ensures
        spec_stage_id(a) != spec_stage_id(b),
{
    reveal_strlit("start-screen");
    reveal_strlit("host-screen");
    reveal_strlit("join-screen");
    reveal_strlit("game-screen");
    assert(spec_stage_id(a)[0] != spec_stage_id(b)[0]);
}

proof fn lemma_stage_class_ends(stage: Stage, active_id: Seq<char>)
    ensures
        ends_active(spec_stage_class(stage, active_id)) <==> active_id == spec_stage_id(stage),
{
    reveal_strlit("stage");
    reveal_strlit("stage flow-screen");
    reveal_strlit("stage game-screen");
    reveal_strlit(" active");
    let base = spec_stage_base(stage);
    let c = spec_stage_class(stage, active_id);
    if active_id == spec_stage_id(stage) {
        assert(c.subrange(c.len() - 7, c.len() as int) =~= " active"@);
    } else {
        assert(c == base);
        if base.len() >= 7 {
            assert(base.subrange(base.len() - 7, base.len() as int)[0] != " active"@[0]);
        }
    }
}

/// The class names of `stage` when the screen with id `active_id` is shown: its base
/// classes, and `active` when it is that screen.
pub fn stage_class(stage: Stage, active_id: &str) -> (class: String)
    ensures
        class@ == spec_stage_class(stage, active_id@),
{
    let base = match stage {
        Stage::Start => "stage",
        Stage::Host => "stage flow-screen",
        Stage::Join => "stage flow-screen",
        Stage::Game => "stage game-screen",
    };
    let mut class = String::from_str(base);
    if str_eq(stage_id(stage), active_id) {
        class.append(" active");
    }
    class
}

/// The direction a key asks for: the arrow keys, and W, A, S, D in either case.
pub open spec fn key_direction(key: Seq<char>) -> Option<Direction> {
    if key == "ArrowUp"@ || key == "w"@ || key == "W"@ {
        Some(Direction::Up)
    } else if key == "ArrowDown"@ || key == "s"@ || key == "S"@ {
        Some(Direction::Down)
    } else if key == "ArrowLeft"@ || key == "a"@ || key == "A"@ {
        Some(Direction::Left)
    } else if key == "ArrowRight"@ || key == "d"@ || key == "D"@ {
        Some(Direction::Right)
    } else {
        None
    }
}

/// The direction a pressed key asks for, if any.
pub fn direction_for_key(key: &str) -> (d: Option<Direction>)
    ensures
        d == key_direction(key@),
{
    if str_eq(key, "ArrowUp") || str_eq(key, "w") || str_eq(key, "W") {
        Some(Direction::Up)
    } else if str_eq(key, "ArrowDown") || str_eq(key, "s") || str_eq(key, "S") {
        Some(Direction::Down)
    } else if str_eq(key, "ArrowLeft") || str_eq(key, "a") || str_eq(key, "A") {
        Some(Direction::Left)
    } else if str_eq(key, "ArrowRight") || str_eq(key, "d") || str_eq(key, "D") {
        Some(Direction::Right)
    } else {
        None
    }
}

/// The keys fall in four groups: `ArrowUp`, `w` and `W` steer up; `ArrowDown`, `s` and `S`
/// down; `ArrowLeft`, `a` and `A` left; `ArrowRight`, `d` and `D` right. Every other key
/// steers nowhere.
pub proof fn lemma_key_groups(key: Seq<char>)
    ensures
        key_direction(key) == Some(Direction::Up) <==> (key == "ArrowUp"@ || key == "w"@ || key
            == "W"@),
        key_direction(key) == Some(Direction::Down) <==> (key == "ArrowDown"@ || key == "s"@
            || key == "S"@),
        key_direction(key) == Some(Direction::Left) <==> (key == "ArrowLeft"@ || key == "a"@
            || key == "A"@),
        key_direction(key) == Some(Direction::Right) <==> (key == "ArrowRight"@ || key == "d"@
            || key == "D"@),
        key_direction(key) is None <==> !(key == "ArrowUp"@ || key == "w"@ || key == "W"@
            || key == "ArrowDown"@ || key == "s"@ || key == "S"@ || key == "ArrowLeft"@ || key
            == "a"@ || key == "A"@ || key == "ArrowRight"@ || key == "d"@ || key == "D"@),
{
    reveal_strlit("ArrowUp");
    reveal_strlit("ArrowDown");
    reveal_strlit("ArrowLeft");
    reveal_strlit("ArrowRight");
    reveal_strlit("w");
    reveal_strlit("W");
    reveal_strlit("s");
    reveal_strlit("S");
    reveal_strlit("a");
    reveal_strlit("A");
    reveal_strlit("d");
    reveal_strlit("D");
    assert("ArrowUp"@.len() == 7 && "ArrowDown"@.len() == 9);
    assert("ArrowLeft"@.len() == 9 && "ArrowRight"@.len() == 10);
    assert("ArrowDown"@[5] == 'D' && "ArrowLeft"@[5] == 'L');
    assert("w"@.len() == 1 && "W"@.len() == 1 && "s"@.len() == 1 && "S"@.len() == 1);
    assert("a"@.len() == 1 && "A"@.len() == 1 && "d"@.len() == 1 && "D"@.len() == 1);
    assert("w"@[0] == 'w' && "W"@[0] == 'W' && "s"@[0] == 's' && "S"@[0] == 'S');
    assert("a"@[0] == 'a' && "A"@[0] == 'A' && "d"@[0] == 'd' && "D"@[0] == 'D');
}

/// A letter key steers the same way in either case: a lower-case letter and its capital
/// ask for the same direction, which is up for `w`, down for `s`, left for `a`, right for
/// `d`, and none for any other letter.
pub proof fn lemma_key_letter_case(c: char)
    requires
        'a' <= c <= 'z',
    ensures
        key_direction(seq![c]) == key_direction(seq![((c as int) - 32) as char]),
        key_direction(seq![c]) == if c == 'w' {
            Some(Direction::Up)
        } else if c == 's' {
            Some(Direction::Down)
        } else if c == 'a' {
            Some(Direction::Left)
        } else if c == 'd' {
            Some(Direction::Right)
        } else {
            None
        },
{
    let upper = ((c as int) - 32) as char;
    lemma_single_key(c);
    lemma_single_key(upper);
}

proof fn lemma_single_key(c: char)
    ensures
        key_direction(seq![c]) == if c == 'w' || c == 'W' {
            Some(Direction::Up)
        } else if c == 's' || c == 'S' {
            Some(Direction::Down)
        } else if c == 'a' || c == 'A' {
            Some(Direction::Left)
        } else if c == 'd' || c == 'D' {
            Some(Direction::Right)
        } else {
            None
        },
{
    reveal_strlit("ArrowUp");
    reveal_strlit("ArrowDown");
    reveal_strlit("ArrowLeft");
    reveal_strlit("ArrowRight");
    reveal_strlit("w");
    reveal_strlit("W");
    reveal_strlit("s");
    reveal_strlit("S");
    reveal_strlit("a");
    reveal_strlit("A");
    reveal_strlit("d");
    reveal_strlit("D");
    assert("ArrowUp"@.len() == 7 && "ArrowDown"@.len() == 9);
    assert("ArrowLeft"@.len() == 9 && "ArrowRight"@.len() == 10);
    assert("w"@ =~= seq!['w'] && "W"@ =~= seq!['W']);
    assert("s"@ =~= seq!['s'] && "S"@ =~= seq!['S']);
    assert("a"@ =~= seq!['a'] && "A"@ =~= seq!['A']);
    assert("d"@ =~= seq!['d'] && "D"@ =~= seq!['D']);
    let k = seq![c];
    assert forall|x: char| k == seq![x] <==> c == x by {
        if k == seq![x] {
            assert(k[0] == seq![x][0]);
        }
        if c == x {
            assert(k =~= seq![x]);
        }
    }
    assert(k.len() == 1);
}

/// One player's entry on the scoreboard: a color swatch, the escaped name and the score.
pub open spec fn score_entry(s: SnakeView) -> Seq<char> {
    "<span class=\"score\"><span class=\"swatch\" style=\"background:"@ + s.color
        + "\"></span>"@ + spec_escape_html(s.name) + ": "@ + decimal(s.score as nat)
        + "</span>"@
}

/// The scoreboard: the entries of all players, one after another.
pub open spec fn spec_scoreboard(snakes: Seq<SnakeView>) -> Seq<char>
    decreases snakes.len(),
{
    if snakes.len() == 0 {
        Seq::empty()
    } else {
        spec_scoreboard(snakes.drop_last()) + score_entry(snakes.last())
    }
}

/// The markup of the scoreboard.
pub fn scoreboard_html(snakes: &Vec<Snake>) -> (html: String)
    ensures
        html@ == spec_scoreboard(crate::protocol::snake_views(snakes@)),
{
    let ghost views = crate::protocol::snake_views(snakes@);
    let mut html = String::new();
    let n = snakes.len();
    for i in 0..n
        invariant
            n == snakes@.len(),
            views == crate::protocol::snake_views(snakes@),
            html@ == spec_scoreboard(views.take(i as int)),
    {
        let s = &snakes[i];
        html.append("<span class=\"score\"><span class=\"swatch\" style=\"background:");
        html.append(s.color.as_str());
        html.append("\"></span>");
        let name = escape_html(s.name.as_str());
        html.append(name.as_str());
        html.append(": ");
        let score = crate::text::decimal_string(s.score);
        html.append(score.as_str());
        html.append("</span>");
        proof {
            assert(views.take(i + 1).drop_last() =~= views.take(i as int));
            assert(views.take(i + 1).last() == views[i as int]);
            assert(html@ =~= spec_scoreboard(views.take(i as int)) + score_entry(views[i as int]));
        }
    }
    assert(views.take(n as int) =~= views);
    html
}

/// A message for a browser error from its name and message: "name: message" when both
/// are there and the message is not empty, else the non-empty message, else the
/// non-empty name; none when neither says anything.
pub open spec fn spec_error_summary(name: Option<Seq<char>>, message: Option<Seq<char>>) -> Option<
    Seq<char>,
> {
    match (name, message) {
        (Some(n), Some(m)) if m.len() > 0 => Some(n + ": "@ + m),
        (_, Some(m)) if m.len() > 0 => Some(m),
        (Some(n), _) if n.len() > 0 => Some(n),
        _ => None,
    }
}

/// Puts together the message for a browser error from its name and message.
pub fn error_summary(name: Option<&str>, message: Option<&str>) -> (r: Option<String>)
    ensures
        r matches Some(s) ==> spec_error_summary(
            match name {
                Some(n) => Some(n@),
                None => None,
            },
            match message {
                Some(m) => Some(m@),
                None => None,
            },
        ) == Some(s@),
        r is None <==> spec_error_summary(
            match name {
                Some(n) => Some(n@),
                None => None,
            },
            match message {
                Some(m) => Some(m@),
                None => None,
            },
        ) is None,
{
    match (name, message) {
        (Some(n), Some(m)) if !m.is_empty() => {
            let mut s = String::from_str(n);
            s.append(": ");
            s.append(m);
            Some(s)
        },
        (_, Some(m)) if !m.is_empty() => Some(String::from_str(m)),
        (Some(n), _) if !n.is_empty() => Some(String::from_str(n)),
        _ => None,
    }
}


/// The white-space separated words of `s`, in order, as `str::split_whitespace` yields them.
pub open spec fn words(s: Seq<char>) -> Seq<Seq<char>>
    decreases s.len(),
{
    if s.len() == 0 {
        Seq::empty()
    } else {
        let w = words(s.drop_last());
        let c = s.last();
        if is_space(c) {
            w
        } else if s.len() >= 2 && !is_space(s[s.len() - 2]) {
            w.update(w.len() - 1, w.last().push(c))
        } else {
            w.push(seq![c])
        }
    }
}

/// Words joined with single spaces between them.
pub open spec fn join_words(ws: Seq<Seq<char>>) -> Seq<char>
    decreases ws.len(),
{
    if ws.len() == 0 {
        Seq::empty()
    } else if ws.len() == 1 {
        ws[0]
    } else {
        join_words(ws.drop_last()) + " "@ + ws.last()
    }
}

/// The class that hides an element.
pub open spec fn hidden_class() -> Seq<char> {
    "hidden"@
}

/// The words other than `hidden`, in order.
pub open spec fn without_hidden(ws: Seq<Seq<char>>) -> Seq<Seq<char>>
    decreases ws.len(),
{
    if ws.len() == 0 {
        Seq::empty()
    } else if ws.last() == hidden_class() {
        without_hidden(ws.drop_last())
    } else {
        without_hidden(ws.drop_last()).push(ws.last())
    }
}

/// The class attribute with `hidden` added at the end.
pub open spec fn with_hidden(class: Seq<char>) -> Seq<char> {
    class + " hidden"@
}

/// The class attribute with every `hidden` taken out, the other classes joined by single spaces.
pub open spec fn with_hidden_removed(class: Seq<char>) -> Seq<char> {
    join_words(without_hidden(words(class)))
}

/// The new class attribute of an element asked to be hidden or shown, or none when it
/// already is as asked.
pub open spec fn spec_set_hidden(class: Seq<char>, hidden: bool) -> Option<Seq<char>> {
    let present = words(class).contains(hidden_class());
    if hidden && !present {
        Some(with_hidden(class))
    } else if !hidden && present {
        Some(with_hidden_removed(class))
    } else {
        None
    }
}

/// The class attribute of an element whose visibility is flipped.
pub open spec fn spec_toggle_hidden(class: Seq<char>) -> Seq<char> {
    if words(class).contains(hidden_class()) {
        with_hidden_removed(class)
    } else {
        with_hidden(class)
    }
}

/// The views of a list of character vectors.
pub open spec fn vec_views(ws: Seq<Vec<char>>) -> Seq<Seq<char>> {
    ws.map_values(|v: Vec<char>| v@)
}

proof fn lemma_words_last(s: Seq<char>)
    requires
        s.len() > 0,
        !is_space(s.last()),
    ensures
        words(s).len() > 0,
    decreases s.len(),
{
    if s.len() >= 2 && !is_space(s[s.len() - 2]) {
        assert(s.drop_last().last() == s[s.len() - 2]);
        lemma_words_last(s.drop_last());
    }
}

fn split_words(s: &str) -> (ws: Vec<Vec<char>>)
    ensures
        vec_views(ws@) == words(s@),
{
    let c = chars_of(s);
    let n = c.len();
    let mut ws: Vec<Vec<char>> = Vec::new();
    for i in 0..n
        invariant
            n == c@.len(),
            c@ == s@,
            vec_views(ws@) == words(c@.take(i as int)),
    {
        let ghost pre = c@.take(i as int);
        let ghost cur = c@.take(i + 1);
        assert(cur.drop_last() =~= pre);
        let ghost before = ws@;
        if is_white_space(c[i]) {
        } else if i >= 1 && !is_white_space(c[i - 1]) {
            proof {
                assert(pre.last() == c@[i - 1]);
                lemma_words_last(pre);
                assert(cur[cur.len() - 2] == c@[i - 1]);
            }
            let last = ws.len() - 1;
            let w = &mut ws[last];
            w.push(c[i]);
            proof {
                assert forall|j: int| 0 <= j < ws@.len() implies vec_views(ws@)[j] == words(cur)[j] by {
                    if j != last {
                        assert(ws@[j] == before[j]);
                    }
                }
                assert(vec_views(ws@) =~= words(cur));
            }
        } else {
            let single = vec![c[i]];
            assert(single@ =~= seq![c@[i as int]]);
            ws.push(single);
            proof {
                if i >= 1 {
                    assert(cur[cur.len() - 2] == c@[i - 1]);
                }
                assert(cur.last() == c@[i as int]);
                assert(vec_views(ws@) =~= words(cur));
            }
        }
    }
    assert(c@.take(n as int) =~= c@);
    ws
}

fn chars_eq(a: &Vec<char>, b: &Vec<char>) -> (r: bool)
    ensures
        r == (a@ == b@),
{
    if a.len() != b.len() {
        return false;
    }
    let n = a.len();
    for i in 0..n
        invariant
            n == a@.len(),
            n == b@.len(),
            forall|j: int| 0 <= j < i ==> a@[j] == b@[j],
    {
        if a[i] != b[i] {
            return false;
        }
    }
    assert(a@ =~= b@);
    true
}

fn has_hidden(ws: &Vec<Vec<char>>) -> (r: bool)
    ensures
        r == vec_views(ws@).contains(hidden_class()),
{
    let hidden = chars_of("hidden");
    let n = ws.len();
    for i in 0..n
        invariant
            n == ws@.len(),
            hidden@ == hidden_class(),
            forall|j: int| 0 <= j < i ==> vec_views(ws@)[j] != hidden_class(),
    {
        if chars_eq(&ws[i], &hidden) {
            assert(vec_views(ws@)[i as int] == hidden_class());
            return true;
        }
    }
    false
}

fn join_without_hidden(ws: &Vec<Vec<char>>) -> (r: String)
    ensures
        r@ == join_words(without_hidden(vec_views(ws@))),
{
    let hidden = chars_of("hidden");
    let ghost views = vec_views(ws@);
    let n = ws.len();
    let mut out = String::new();
    let mut kept: usize = 0;
    for i in 0..n
        invariant
            n == ws@.len(),
            hidden@ == hidden_class(),
            views == vec_views(ws@),
            kept == without_hidden(views.take(i as int)).len(),
            kept <= i,
            out@ == join_words(without_hidden(views.take(i as int))),
    {
        let ghost pre = views.take(i as int);
        assert(views.take(i + 1).drop_last() =~= pre);
        assert(views.take(i + 1).last() == views[i as int]);
        if !chars_eq(&ws[i], &hidden) {
            if kept > 0 {
                out.append(" ");
            }
            let w = &ws[i];
            let m = w.len();
            let ghost before = out@;
            for j in 0..m
                invariant
                    m == w@.len(),
                    out@ == before + w@.take(j as int),
            {
                push_char(&mut out, w[j]);
                assert(w@.take(j + 1) =~= w@.take(j as int).push(w@[j as int]));
            }
            assert(w@.take(m as int) =~= w@);
            kept = kept + 1;
            proof {
                let kept_words = without_hidden(pre).push(views[i as int]);
                assert(without_hidden(views.take(i + 1)) == kept_words);
                assert(kept_words.drop_last() =~= without_hidden(pre));
                if kept_words.len() == 1 {
                    assert(out@ =~= kept_words[0]);
                } else {
                    assert(out@ =~= join_words(without_hidden(pre)) + " "@ + views[i as int]);
                }
            }
        }
    }
    assert(views.take(n as int) =~= views);
    out
}

/// Hides or shows an element by its class attribute: gives the new attribute, or `None`
/// when the element already is as asked.
pub fn set_hidden_class(class: &str, hidden: bool) -> (r: Option<String>)
    ensures
        r matches Some(s) ==> spec_set_hidden(class@, hidden) == Some(s@),
        r is None <==> spec_set_hidden(class@, hidden) is None,
{
    let ws = split_words(class);
    let present = has_hidden(&ws);
    if hidden && !present {
        let mut s = String::from_str(class);
        s.append(" hidden");
        Some(s)
    } else if !hidden && present {
        Some(join_without_hidden(&ws))
    } else {
        None
    }
}

/// Flips the visibility of an element by its class attribute.
pub fn toggle_hidden_class(class: &str) -> (r: String)
    ensures
        r@ == spec_toggle_hidden(class@),
{
    let ws = split_words(class);
    if has_hidden(&ws) {
        join_without_hidden(&ws)
    } else {
        let mut s = String::from_str(class);
        s.append(" hidden");
        s
    }
}


/// Every word is non-empty and holds no white space.
pub open spec fn plain_words(ws: Seq<Seq<char>>) -> bool {
    forall|i: int|
        0 <= i < ws.len() ==> (#[trigger] ws[i]).len() > 0 && forall|k: int|
            0 <= k < ws[i].len() ==> !is_space(#[trigger] ws[i][k])
}

proof fn lemma_words_plain(s: Seq<char>)
    ensures
        plain_words(words(s)),
    decreases s.len(),
{
    if s.len() > 0 {
        lemma_words_plain(s.drop_last());
        let w = words(s.drop_last());
        let c = s.last();
        if !is_space(c) {
            if s.len() >= 2 && !is_space(s[s.len() - 2]) {
                assert(s.drop_last().last() == s[s.len() - 2]);
                lemma_words_last(s.drop_last());
                let r = words(s);
                assert forall|i: int| 0 <= i < r.len() implies (#[trigger] r[i]).len() > 0
                    && forall|k: int| 0 <= k < r[i].len() ==> !is_space(#[trigger] r[i][k]) by {
                    if i == w.len() - 1 {
                        assert(r[i] == w.last().push(c));
                        assert forall|k: int| 0 <= k < r[i].len() implies !is_space(#[trigger] r[i][k]) by {
                            if k < w.last().len() {
                                assert(r[i][k] == w[w.len() - 1][k]);
                            }
                        }
                    } else {
                        assert(r[i] == w[i]);
                    }
                }
            } else {
                let r = words(s);
                assert forall|i: int| 0 <= i < r.len() implies (#[trigger] r[i]).len() > 0
                    && forall|k: int| 0 <= k < r[i].len() ==> !is_space(#[trigger] r[i][k]) by {
                    if i < w.len() {
                        assert(r[i] == w[i]);
                    }
                }
            }
        }
    }
}

proof fn lemma_words_space_end(a: Seq<char>, c: char)
    requires
        is_space(c),
    ensures
        words(a.push(c)) == words(a),
{
    assert(a.push(c).drop_last() =~= a);
}

proof fn lemma_words_append_word(a: Seq<char>, b: Seq<char>)
    requires
        b.len() > 0,
        forall|k: int| 0 <= k < b.len() ==> !is_space(#[trigger] b[k]),
        a.len() == 0 || is_space(a.last()),
    ensures
        words(a + b) == words(a).push(b),
    decreases b.len(),
{
    let s = a + b;
    assert(s.drop_last() =~= a + b.drop_last());
    assert(s.last() == b.last());
    if b.len() == 1 {
        assert(a + b.drop_last() =~= a);
        if s.len() >= 2 {
            assert(s[s.len() - 2] == a.last());
        }
        assert(b =~= seq![b[0]]);
    } else {
        lemma_words_append_word(a, b.drop_last());
        assert(s[s.len() - 2] == b[b.len() - 2]);
        assert(b.drop_last().push(b.last()) =~= b);
        assert(words(s) =~= words(a).push(b));
    }
}

proof fn lemma_words_join(ws: Seq<Seq<char>>)
    requires
        plain_words(ws),
    ensures
        words(join_words(ws)) == ws,
    decreases ws.len(),
{
    if ws.len() == 1 {
        assert(ws[0].len() > 0);
        lemma_words_append_word(Seq::empty(), ws[0]);
        assert(Seq::<char>::empty() + ws[0] =~= ws[0]);
        assert(words(Seq::<char>::empty()).push(ws[0]) =~= ws);
    } else if ws.len() > 1 {
        let init = ws.drop_last();
        assert forall|i: int| 0 <= i < init.len() implies (#[trigger] init[i]).len() > 0 && forall|k: int|
            0 <= k < init[i].len() ==> !is_space(#[trigger] init[i][k]) by {
            assert(init[i] == ws[i]);
        }
        lemma_words_join(init);
        let a = join_words(init) + " "@;
        reveal_strlit(" ");
        assert(a =~= join_words(init).push(' '));
        lemma_words_space_end(join_words(init), ' ');
        assert(ws.last() == ws[ws.len() - 1]);
        lemma_words_append_word(a, ws.last());
        assert(join_words(ws) =~= a + ws.last());
        assert(init.push(ws.last()) =~= ws);
    }
}

proof fn lemma_without_hidden(ws: Seq<Seq<char>>)
    requires
        plain_words(ws),
    ensures
        plain_words(without_hidden(ws)),
        !without_hidden(ws).contains(hidden_class()),
    decreases ws.len(),
{
    if ws.len() > 0 {
        let init = ws.drop_last();
        assert forall|i: int| 0 <= i < init.len() implies (#[trigger] init[i]).len() > 0 && forall|k: int|
            0 <= k < init[i].len() ==> !is_space(#[trigger] init[i][k]) by {
            assert(init[i] == ws[i]);
        }
        lemma_without_hidden(init);
        let r = without_hidden(ws);
        let r0 = without_hidden(init);
        if ws.last() != hidden_class() {
            assert(ws.last() == ws[ws.len() - 1]);
            assert forall|i: int| 0 <= i < r.len() implies (#[trigger] r[i]).len() > 0 && forall|k: int|
                0 <= k < r[i].len() ==> !is_space(#[trigger] r[i][k]) by {
                if i < r0.len() {
                    assert(r[i] == r0[i]);
                }
            }
            if r.contains(hidden_class()) {
                let j = choose|j: int| 0 <= j < r.len() && r[j] == hidden_class();
                if j < r0.len() {
                    assert(r0[j] == r[j]);
                }
            }
        }
    }
}

/// Hiding an element adds `hidden` after its other classes, which keep their order;
/// showing it takes out every `hidden` and keeps the other classes in order; an element
/// already as asked keeps its class attribute. Asking a second time changes nothing.
pub proof fn lemma_set_hidden(class: Seq<char>, hidden: bool)
    ensures
        match spec_set_hidden(class, hidden) {
            Some(s) => {
                &&& words(s).contains(hidden_class()) == hidden
                &&& spec_set_hidden(s, hidden) is None
                &&& hidden ==> words(s) == words(class).push(hidden_class())
                &&& !hidden ==> words(s) == without_hidden(words(class))
            },
            None => words(class).contains(hidden_class()) == hidden,
        },
{
    lemma_hidden_added(class);
    lemma_hidden_removed(class);
}

/// Flipping an element's visibility flips whether `hidden` is among its classes and keeps
/// the other classes in order: `hidden` is added after them, or every `hidden` is taken
/// out. Flipping twice gives back the same classes: the same set of words, the same
/// other classes in the same order, and, when `hidden` was absent, the same words.
pub proof fn lemma_toggle_hidden(class: Seq<char>)
    ensures
        words(spec_toggle_hidden(class)).contains(hidden_class()) == !words(class).contains(
            hidden_class(),
        ),
        words(spec_toggle_hidden(class)) == if words(class).contains(hidden_class()) {
            without_hidden(words(class))
        } else {
            words(class).push(hidden_class())
        },
        words(spec_toggle_hidden(spec_toggle_hidden(class))).contains(hidden_class()) == words(
            class,
        ).contains(hidden_class()),
        without_hidden(words(spec_toggle_hidden(spec_toggle_hidden(class)))) == without_hidden(
            words(class),
        ),
        words(spec_toggle_hidden(spec_toggle_hidden(class))).to_set() == words(class).to_set(),
        !words(class).contains(hidden_class()) ==> words(
            spec_toggle_hidden(spec_toggle_hidden(class)),
        ) == words(class),
{
    let w = words(class);
    let h = hidden_class();
    lemma_hidden_added(class);
    lemma_hidden_removed(class);
    let t1 = spec_toggle_hidden(class);
    lemma_hidden_added(t1);
    lemma_hidden_removed(t1);
    let t2 = spec_toggle_hidden(t1);
    lemma_without_hidden_contains(w);
    lemma_without_hidden_idempotent(w);
    if w.contains(h) {
        let ww = without_hidden(w);
        assert(words(t2) == ww.push(h));
        assert(ww.push(h).drop_last() =~= ww);
        assert(ww.push(h).last() == h);
        assert(without_hidden(ww.push(h)) == without_hidden(ww));
        assert forall|x: Seq<char>| words(t2).to_set().contains(x) == w.to_set().contains(x) by {
            if x != h {
                if ww.push(h).contains(x) {
                    let m = choose|m: int| 0 <= m < ww.push(h).len() && ww.push(h)[m] == x;
                    assert(ww[m] == x);
                }
                if ww.contains(x) {
                    let m = choose|m: int| 0 <= m < ww.len() && ww[m] == x;
                    assert(ww.push(h)[m] == x);
                }
            } else {
                assert(ww.push(h)[ww.len() as int] == h);
            }
        }
        assert(words(t2).to_set() =~= w.to_set());
    } else {
        lemma_without_hidden_absent(w);
        assert(w.push(h).drop_last() =~= w);
        assert(w.push(h).last() == h);
        assert(without_hidden(w.push(h)) == without_hidden(w));
        assert(words(t2) == w);
    }
}

proof fn lemma_without_hidden_contains(ws: Seq<Seq<char>>)
    ensures
        forall|x: Seq<char>|
            #[trigger] without_hidden(ws).contains(x) <==> ws.contains(x) && x != hidden_class(),
    decreases ws.len(),
{
    if ws.len() > 0 {
        let init = ws.drop_last();
        lemma_without_hidden_contains(init);
        let r0 = without_hidden(init);
        assert forall|x: Seq<char>| #[trigger] without_hidden(ws).contains(x) <==> ws.contains(x) && x
            != hidden_class() by {
            if ws.contains(x) {
                let m = choose|m: int| 0 <= m < ws.len() && ws[m] == x;
                if m < init.len() {
                    assert(init[m] == x);
                }
            }
            if init.contains(x) {
                let m = choose|m: int| 0 <= m < init.len() && init[m] == x;
                assert(ws[m] == x);
            }
            if ws.last() != hidden_class() {
                let r = r0.push(ws.last());
                if r.contains(x) {
                    let m = choose|m: int| 0 <= m < r.len() && r[m] == x;
                    if m < r0.len() {
                        assert(r0[m] == x);
                    }
                }
                if r0.contains(x) {
                    let m = choose|m: int| 0 <= m < r0.len() && r0[m] == x;
                    assert(r[m] == x);
                }
                assert(r[r0.len() as int] == ws.last());
                assert(ws[ws.len() - 1] == ws.last());
            }
        }
    }
}

proof fn lemma_without_hidden_idempotent(ws: Seq<Seq<char>>)
    ensures
        without_hidden(without_hidden(ws)) == without_hidden(ws),
    decreases ws.len(),
{
    if ws.len() > 0 {
        let init = ws.drop_last();
        lemma_without_hidden_idempotent(init);
        if ws.last() != hidden_class() {
            let r0 = without_hidden(init);
            assert(r0.push(ws.last()).drop_last() =~= r0);
        }
    }
}

proof fn lemma_without_hidden_absent(ws: Seq<Seq<char>>)
    requires
        !ws.contains(hidden_class()),
    ensures
        without_hidden(ws) == ws,
    decreases ws.len(),
{
    if ws.len() > 0 {
        let init = ws.drop_last();
        if init.contains(hidden_class()) {
            let m = choose|m: int| 0 <= m < init.len() && init[m] == hidden_class();
            assert(ws[m] == hidden_class());
        }
        lemma_without_hidden_absent(init);
        assert(ws[ws.len() - 1] == ws.last());
        assert(init.push(ws.last()) =~= ws);
    }
}

proof fn lemma_hidden_added(class: Seq<char>)
    ensures
        words(with_hidden(class)) == words(class).push(hidden_class()),
        words(with_hidden(class)).contains(hidden_class()),
{
    reveal_strlit(" hidden");
    reveal_strlit("hidden");
    let a = class.push(' ');
    lemma_words_space_end(class, ' ');
    assert(with_hidden(class) =~= a + hidden_class());
    lemma_words_append_word(a, hidden_class());
    let r = words(class).push(hidden_class());
    assert(r[r.len() - 1] == hidden_class());
}

proof fn lemma_hidden_removed(class: Seq<char>)
    ensures
        words(with_hidden_removed(class)) == without_hidden(words(class)),
        !words(with_hidden_removed(class)).contains(hidden_class()),
{
    lemma_words_plain(class);
    lemma_without_hidden(words(class));
    lemma_words_join(without_hidden(words(class)));
}


/// The class names of a color button: marked `selected` when it is the player's color.
pub open spec fn spec_color_choice_class(color: Seq<char>, chosen: Seq<char>) -> Seq<char> {
    if color == chosen {
        "color-choice selected"@
    } else {
        "color-choice"@
    }
}

/// The class names of the button of `color` when the player has chosen `chosen`.
pub fn color_choice_class(color: &str, chosen: &str) -> (class: String)
    ensures
        class@ == spec_color_choice_class(color@, chosen@),
{
    if str_eq(color, chosen) {
        String::from_str("color-choice selected")
    } else {
        String::from_str("color-choice")
    }
}

} // verus!
