use vstd::prelude::*;
use vstd::string::*;

use crate::decimal::{
    all_digits, decimal_text, digit_value, digits_value, is_canonical_digits, is_digit,
    lemma_canonical_digits_text, lemma_decimal_text_digits, push_decimal,
};

verus! {

/// One step of a path: a position in a container's content, a named
/// sub-element, or the parent marker `^`.
#[derive(Debug, Clone, PartialEq)]
pub enum PathComponent {
    Index(usize),
    Named(String),
    Parent,
}

/// A dotted address into the graph. A leading dot marks a path relative to
/// the object that holds it; the empty text is the root.
#[derive(Debug, Clone, PartialEq)]
pub struct Path {
    pub is_relative: bool,
    pub components: Vec<PathComponent>,
}

/// The text of a path that could not be parsed.
#[derive(Debug, Clone, PartialEq)]
pub struct PathError {
    pub text: String,
}

pub enum ComponentView {
    Index(nat),
    Named(Seq<char>),
    Parent,
}

pub struct PathView {
    pub is_relative: bool,
    pub components: Seq<ComponentView>,
}

impl View for PathComponent {
    type V = ComponentView;

    open spec fn view(&self) -> ComponentView {
        match self {
            PathComponent::Index(i) => ComponentView::Index(*i as nat),
            PathComponent::Named(s) => ComponentView::Named(s@),
            PathComponent::Parent => ComponentView::Parent,
        }
    }
}

impl View for Path {
    type V = PathView;

    open spec fn view(&self) -> PathView {
        PathView {
            is_relative: self.is_relative,
            components: self.components@.map_values(|c: PathComponent| c@),
        }
    }
}

/// A character that may stand in a name: letters, digits, `-`, `$`, `_`.
pub open spec fn is_name_char(c: char) -> bool {
    is_digit(c) || ('a' <= c && c <= 'z') || ('A' <= c && c <= 'Z') || c == '-' || c == '$'
        || c == '_' || (c as u32) > 127
}

pub open spec fn is_name(t: Seq<char>) -> bool {
    t.len() > 0 && forall|i: int| 0 <= i < t.len() ==> is_name_char(#[trigger] t[i])
}

/// What one dot-free token of a path denotes, if anything.
pub open spec fn token_component(t: Seq<char>) -> Option<ComponentView> {
    if t == seq!['^'] {
        Some(ComponentView::Parent)
    } else if all_digits(t) {
        if digits_value(t) <= usize::MAX {
            Some(ComponentView::Index(digits_value(t)))
        } else {
            None
        }
    } else if is_name(t) {
        Some(ComponentView::Named(t))
    } else {
        None
    }
}

/// The pieces of `s` between dots: `"a.b"` gives `a` and `b`, `""` one empty piece.
pub open spec fn split_on_dot(s: Seq<char>) -> Seq<Seq<char>>
    decreases s.len(),
{
    if s.len() == 0 {
        seq![Seq::<char>::empty()]
    } else {
        let rest = split_on_dot(s.drop_last());
        if s.last() == '.' {
            rest.push(Seq::<char>::empty())
        } else {
            rest.update(rest.len() - 1, rest.last().push(s.last()))
        }
    }
}

pub open spec fn relative_prefix(t: Seq<char>) -> nat {
    if t.len() > 0 && t[0] == '.' {
        1
    } else {
        0
    }
}

/// The tokens of a path's text after its relative marker.
pub open spec fn path_tokens(t: Seq<char>) -> Seq<Seq<char>> {
    split_on_dot(t.subrange(relative_prefix(t) as int, t.len() as int))
}

pub open spec fn tokens_ok(ts: Seq<Seq<char>>) -> bool {
    forall|k: int| 0 <= k < ts.len() ==> (#[trigger] token_component(ts[k])) is Some
}

/// The path that a text denotes: `None` where a token is empty or malformed.
pub open spec fn parse_path(t: Seq<char>) -> Option<PathView> {
    if t.len() == 0 {
        Some(PathView { is_relative: false, components: Seq::empty() })
    } else if tokens_ok(path_tokens(t)) {
        Some(
            PathView {
                is_relative: relative_prefix(t) == 1,
                components: path_tokens(t).map_values(
                    |x: Seq<char>| token_component(x)->Some_0,
                ),
            },
        )
    } else {
        None
    }
}

pub open spec fn component_text(c: ComponentView) -> Seq<char> {
    match c {
        ComponentView::Index(n) => decimal_text(n),
        ComponentView::Named(s) => s,
        ComponentView::Parent => seq!['^'],
    }
}

/// Pieces joined by dots.
pub open spec fn join_dot(ts: Seq<Seq<char>>) -> Seq<char>
    decreases ts.len(),
{
    if ts.len() == 0 {
        Seq::empty()
    } else if ts.len() == 1 {
        ts[0]
    } else {
        join_dot(ts.drop_last()) + seq!['.'] + ts.last()
    }
}

/// The text of a path: its components joined by dots, after a dot if relative.
pub open spec fn render_path(p: PathView) -> Seq<char> {
    (if p.is_relative {
        seq!['.']
    } else {
        Seq::empty()
    }) + join_dot(p.components.map_values(|c: ComponentView| component_text(c)))
}

/// No index of the text is written with a redundant leading zero.
pub open spec fn has_canonical_indices(t: Seq<char>) -> bool {
    forall|k: int|
        0 <= k < path_tokens(t).len() && all_digits(#[trigger] path_tokens(t)[k])
            ==> is_canonical_digits(path_tokens(t)[k])
}

proof fn lemma_split_nonempty(s: Seq<char>)
    ensures
        split_on_dot(s).len() >= 1,
    decreases s.len(),
{
    if s.len() > 0 {
        lemma_split_nonempty(s.drop_last());
    }
}

proof fn lemma_join_split(s: Seq<char>)
    ensures
        join_dot(split_on_dot(s)) == s,
    decreases s.len(),
{
    if s.len() == 0 {
        assert(join_dot(split_on_dot(s)) =~= s);
    } else {
        let p = s.drop_last();
        let c = s.last();
        lemma_join_split(p);
        lemma_split_nonempty(p);
        let rest = split_on_dot(p);
        let ts = split_on_dot(s);
        if c == '.' {
            assert(ts.drop_last() =~= rest);
            assert(join_dot(ts) =~= s);
        } else if rest.len() == 1 {
            assert(join_dot(ts) =~= s);
        } else {
            assert(ts.drop_last() =~= rest.drop_last());
            assert(join_dot(ts) == join_dot(rest.drop_last()) + seq!['.'] + rest.last().push(c));
            assert(join_dot(ts) =~= join_dot(rest).push(c));
            assert(join_dot(ts) =~= s);
        }
    }
}

/// Rendering a parsed path gives back its text, wherever no index in the
/// text carries a redundant leading zero (`a.01` renders as `a.1`).
pub proof fn lemma_render_parse(t: Seq<char>)
    requires
        parse_path(t) is Some,
        has_canonical_indices(t),
    ensures
        render_path(parse_path(t)->Some_0) == t,
{
    if t.len() == 0 {
        assert(render_path(parse_path(t)->Some_0) =~= t);
    } else {
        let ts = path_tokens(t);
        let p = parse_path(t)->Some_0;
        let texts = p.components.map_values(|c: ComponentView| component_text(c));
        assert forall|k: int| 0 <= k < ts.len() implies texts[k] == ts[k] by {
            assert(token_component(ts[k]) is Some);
            if all_digits(ts[k]) && ts[k] != seq!['^'] {
                lemma_canonical_digits_text(ts[k]);
            }
        }
        assert(texts =~= ts);
        lemma_join_split(t.subrange(relative_prefix(t) as int, t.len() as int));
        assert(render_path(p) =~= t);
    }
}

/// A component that a path can be written with and read back: an index
/// within `usize`, or a name that is not all digits.
pub open spec fn component_ok(c: ComponentView) -> bool {
    match c {
        ComponentView::Index(n) => n <= usize::MAX,
        ComponentView::Named(s) => is_name(s) && !all_digits(s),
        ComponentView::Parent => true,
    }
}

/// A path whose text reads back as itself: well-formed components, and a
/// relative path has at least one.
pub open spec fn path_ok(p: PathView) -> bool {
    (forall|k: int| 0 <= k < p.components.len() ==> component_ok(#[trigger] p.components[k])) && (
    p.is_relative ==> p.components.len() > 0)
}

pub open spec fn dot_free(t: Seq<char>) -> bool {
    forall|i: int| 0 <= i < t.len() ==> #[trigger] t[i] != '.'
}

proof fn lemma_split_dot_free(t: Seq<char>)
    requires
        dot_free(t),
    ensures
        split_on_dot(t) == seq![t],
    decreases t.len(),
{
    if t.len() > 0 {
        let p = t.drop_last();
        assert(dot_free(p)) by {
            assert forall|i: int| 0 <= i < p.len() implies #[trigger] p[i] != '.' by {
                assert(p[i] == t[i]);
            }
        }
        lemma_split_dot_free(p);
        assert(t.last() == t[t.len() - 1]);
        assert(t.last() != '.');
        assert(p.push(t.last()) =~= t);
        let rest = split_on_dot(p);
        assert(split_on_dot(t) == rest.update(rest.len() - 1, rest.last().push(t.last())));
        assert(split_on_dot(t) =~= seq![t]);
    } else {
        assert(t =~= Seq::<char>::empty());
        assert(split_on_dot(t) =~= seq![t]);
    }
}

proof fn lemma_split_after_dot(s: Seq<char>, t: Seq<char>)
    requires
        dot_free(t),
    ensures
        split_on_dot(s + seq!['.'] + t) == split_on_dot(s).push(t),
    decreases t.len(),
{
    let w = s + seq!['.'] + t;
    if t.len() == 0 {
        assert(w.drop_last() =~= s);
        assert(w.last() == '.');
        assert(t =~= Seq::<char>::empty());
        assert(split_on_dot(w) == split_on_dot(s).push(Seq::<char>::empty()));
    } else {
        let p = t.drop_last();
        assert(dot_free(p)) by {
            assert forall|i: int| 0 <= i < p.len() implies #[trigger] p[i] != '.' by {
                assert(p[i] == t[i]);
            }
        }
        lemma_split_after_dot(s, p);
        assert(w.drop_last() =~= s + seq!['.'] + p);
        assert(w.last() == t[t.len() - 1]);
        let rest = split_on_dot(s).push(p);
        assert(split_on_dot(w) == rest.update(rest.len() - 1, rest.last().push(t.last())));
        assert(p.push(t.last()) =~= t);
        assert(rest.update(rest.len() - 1, rest.last().push(t.last())) =~= split_on_dot(s).push(t));
    }
}

proof fn lemma_split_join(ts: Seq<Seq<char>>)
    requires
        ts.len() >= 1,
        forall|k: int| 0 <= k < ts.len() ==> dot_free(#[trigger] ts[k]),
    ensures
        split_on_dot(join_dot(ts)) == ts,
    decreases ts.len(),
{
    if ts.len() == 1 {
        lemma_split_dot_free(ts[0]);
        assert(seq![ts[0]] =~= ts);
    } else {
        let d = ts.drop_last();
        assert forall|k: int| 0 <= k < d.len() implies dot_free(#[trigger] d[k]) by {
            assert(d[k] == ts[k]);
        }
        lemma_split_join(d);
        assert(dot_free(ts[ts.len() - 1]));
        lemma_split_after_dot(join_dot(d), ts.last());
        assert(d.push(ts.last()) =~= ts);
    }
}

proof fn lemma_join_first(ts: Seq<Seq<char>>)
    requires
        ts.len() >= 1,
        ts[0].len() > 0,
    ensures
        join_dot(ts).len() > 0,
        join_dot(ts)[0] == ts[0][0],
    decreases ts.len(),
{
    if ts.len() > 1 {
        let d = ts.drop_last();
        assert(d[0] == ts[0]);
        lemma_join_first(d);
        let j = join_dot(d) + seq!['.'] + ts.last();
        assert(j[0] == join_dot(d)[0]);
    }
}

/// Every well-formed path reads back from its text as itself.
pub proof fn lemma_parse_render(p: PathView)
    requires
        path_ok(p),
    ensures
        parse_path(render_path(p)) == Some(p),
{
    let texts = p.components.map_values(|c: ComponentView| component_text(c));
    let t = render_path(p);
    if p.components.len() == 0 {
        assert(texts.len() == 0);
        assert(t =~= Seq::<char>::empty());
        assert(p.components =~= Seq::<ComponentView>::empty());
    } else {
        assert forall|k: int| 0 <= k < texts.len() implies dot_free(#[trigger] texts[k])
            && texts[k].len() > 0 && token_component(texts[k]) == Some(p.components[k]) by {
            let c = p.components[k];
            assert(component_ok(c));
            match c {
                ComponentView::Index(n) => {
                    lemma_decimal_text_digits(n);
                    let d = decimal_text(n);
                    assert forall|i: int| 0 <= i < d.len() implies #[trigger] d[i] != '.' by {
                        assert(is_digit(d[i]));
                    }
                    assert(d != seq!['^']) by {
                        if d == seq!['^'] {
                            assert(is_digit(d[0]));
                        }
                    }
                },
                ComponentView::Named(s) => {
                    assert forall|i: int| 0 <= i < s.len() implies #[trigger] s[i] != '.' by {
                        assert(is_name_char(s[i]));
                    }
                    assert(s != seq!['^']) by {
                        if s == seq!['^'] {
                            assert(is_name_char(s[0]));
                        }
                    }
                },
                ComponentView::Parent => {
                    assert(seq!['^'][0] == '^');
                },
            }
        }
        lemma_split_join(texts);
        lemma_join_first(texts);
        let prefix: Seq<char> = if p.is_relative {
            seq!['.']
        } else {
            Seq::empty()
        };
        let j = join_dot(texts);
        assert(t == prefix + j);
        assert(texts[0][0] != '.');
        assert(relative_prefix(t) == prefix.len()) by {
            if p.is_relative {
                assert(t[0] == '.');
            } else {
                assert(t[0] == j[0]);
            }
        }
        assert(t.subrange(relative_prefix(t) as int, t.len() as int) =~= j);
        assert(path_tokens(t) == texts);
        assert(tokens_ok(path_tokens(t)));
        assert(texts.map_values(|x: Seq<char>| token_component(x)->Some_0) =~= p.components);
    }
}

/// Every path read from text is well-formed.
pub proof fn lemma_parsed_path_ok(t: Seq<char>)
    ensures
        parse_path(t) matches Some(p) ==> path_ok(p),
{
    if t.len() > 0 && tokens_ok(path_tokens(t)) {
        let ts = path_tokens(t);
        let p = parse_path(t)->Some_0;
        lemma_split_nonempty(t.subrange(relative_prefix(t) as int, t.len() as int));
        assert forall|k: int| 0 <= k < p.components.len() implies component_ok(
            #[trigger] p.components[k],
        ) by {
            assert(token_component(ts[k]) is Some);
        }
    }
}

/// Whether two texts are the same character sequence.
pub fn str_equal(a: &str, b: &str) -> (r: bool)
    ensures
        r == (a@ == b@),
{
    let n = a.unicode_len();
    if n != b.unicode_len() {
        return false;
    }
    let mut i: usize = 0;
    while i < n
        invariant
            n == a@.len(),
            n == b@.len(),
            i <= n,
            a@.subrange(0, i as int) == b@.subrange(0, i as int),
        decreases n - i,
    {
        if a.get_char(i) != b.get_char(i) {
            assert(a@[i as int] != b@[i as int]);
            return false;
        }
        assert(a@.subrange(0, i + 1) =~= a@.subrange(0, i as int).push(a@[i as int]));
        assert(b@.subrange(0, i + 1) =~= b@.subrange(0, i as int).push(b@[i as int]));
        i = i + 1;
    }
    assert(a@ =~= a@.subrange(0, n as int));
    assert(b@ =~= b@.subrange(0, n as int));
    true
}

fn is_name_char_exec(c: char) -> (r: bool)
    ensures
        r == is_name_char(c),
{
    ('0' <= c && c <= '9') || ('a' <= c && c <= 'z') || ('A' <= c && c <= 'Z') || c == '-' || c
        == '$' || c == '_' || (c as u32) > 127
}

/// The component that the characters `from..to` of `t` denote.
fn token_at(t: &str, from: usize, to: usize) -> (r: Option<PathComponent>)
    requires
        from <= to <= t@.len(),
    ensures
        r matches Some(c) ==> token_component(t@.subrange(from as int, to as int)) == Some(c@),
        r is None ==> token_component(t@.subrange(from as int, to as int)) is None,
{
    let ghost tok = t@.subrange(from as int, to as int);
    if to == from {
        return None;
    }
    if to == from + 1 && t.get_char(from) == '^' {
        assert(tok =~= seq!['^']);
        return Some(PathComponent::Parent);
    }
    assert(tok != seq!['^']) by {
        if tok == seq!['^'] {
            assert(seq!['^'].len() == 1);
            assert(tok.len() == 1);
            assert(tok[0] == t@[from as int]);
            assert(seq!['^'][0] == '^');
        }
    }
    let mut digits = true;
    let mut names = true;
    let mut value: usize = 0;
    let mut overflow = false;
    let mut i: usize = from;
    while i < to
        invariant
            from < to <= t@.len(),
            from <= i <= to,
            tok == t@.subrange(from as int, to as int),
            digits == (forall|j: int| 0 <= j < i - from ==> is_digit(#[trigger] tok[j])),
            names == (forall|j: int| 0 <= j < i - from ==> is_name_char(#[trigger] tok[j])),
            digits && !overflow ==> value == digits_value(tok.subrange(0, i - from)),
            digits && overflow ==> digits_value(tok.subrange(0, i - from)) > usize::MAX,
        decreases to - i,
    {
        let c = t.get_char(i);
        assert(c == tok[i - from]);
        let ghost pre = tok.subrange(0, i - from);
        let ghost next = tok.subrange(0, i + 1 - from);
        assert(next.drop_last() =~= pre);
        assert(next.last() == c);
        if digits {
            if '0' <= c && c <= '9' {
                let d = (c as u32 - '0' as u32) as usize;
                assert(d == digit_value(c));
                if overflow || value > (usize::MAX - d) / 10 {
                    if !overflow {
                        assert(value * 10 + d > usize::MAX) by (nonlinear_arith)
                            requires
                                value > (usize::MAX - d) / 10,
                                d < 10,
                        ;
                    } else {
                        assert(digits_value(pre) * 10 + d > usize::MAX) by (nonlinear_arith)
                            requires
                                digits_value(pre) > usize::MAX,
                        ;
                    }
                    overflow = true;
                } else {
                    assert(value * 10 + d <= usize::MAX) by (nonlinear_arith)
                        requires
                            value <= (usize::MAX - d) / 10,
                            d < 10,
                    ;
                    value = value * 10 + d;
                }
            } else {
                digits = false;
                assert(!is_digit(tok[i - from]));
            }
        }
        if names && !is_name_char_exec(c) {
            names = false;
            assert(!is_name_char(tok[i - from]));
        }
        i = i + 1;
    }
    assert(tok.subrange(0, to - from) =~= tok);
    if digits {
        assert(all_digits(tok));
        if overflow {
            None
        } else {
            Some(PathComponent::Index(value))
        }
    } else if names {
        let s = t.substring_char(from, to);
        Some(PathComponent::Named(String::from_str(s)))
    } else {
        assert(!all_digits(tok));
        assert(!is_name(tok));
        None
    }
}

impl Path {
    /// The root: an absolute path with no components.
    pub fn root() -> (r: Path)
        ensures
            !r@.is_relative,
            r@.components.len() == 0,
    {
        Path { is_relative: false, components: Vec::new() }
    }

    /// Parses dotted text. A leading dot makes the path relative; each
    /// token between dots is `^`, digits, or a name.
    pub fn parse(text: &str) -> (r: Result<Path, PathError>)
        ensures
            r matches Ok(p) ==> parse_path(text@) == Some(p@),
            r matches Err(e) ==> parse_path(text@) is None && e.text@ == text@,
    {
        let n = text.unicode_len();
        if n == 0 {
            let p = Path::root();
            assert(p@.components =~= Seq::<ComponentView>::empty());
            return Ok(p);
        }
        let start: usize = if text.get_char(0) == '.' {
            1
        } else {
            0
        };
        assert(start == relative_prefix(text@));
        let ghost body = text@.subrange(start as int, n as int);
        // bounds of the tokens found so far, and where the current one starts
        let mut bounds: Vec<(usize, usize)> = Vec::new();
        let mut tok_start: usize = start;
        let mut i: usize = start;
        assert(body.subrange(0, 0) =~= Seq::<char>::empty());
        assert(text@.subrange(start as int, start as int) =~= Seq::<char>::empty());
        assert(bounds@.map_values(|b: (usize, usize)| text@.subrange(b.0 as int, b.1 as int))
            =~= Seq::<Seq<char>>::empty());
        while i < n
            invariant
                n == text@.len(),
                start <= tok_start <= i <= n,
                body == text@.subrange(start as int, n as int),
                forall|k: int|
                    0 <= k < bounds.len() ==> start <= (#[trigger] bounds@[k]).0 <= bounds@[k].1
                        <= tok_start,
                split_on_dot(body.subrange(0, i - start)) == bounds@.map_values(
                    |b: (usize, usize)| text@.subrange(b.0 as int, b.1 as int),
                ).push(text@.subrange(tok_start as int, i as int)),
            decreases n - i,
        {
            let ghost pre = body.subrange(0, i - start);
            let ghost next = body.subrange(0, i + 1 - start);
            assert(next.drop_last() =~= pre);
            assert(next.last() == text@[i as int]);
            let ghost old_seqs = bounds@.map_values(
                |b: (usize, usize)| text@.subrange(b.0 as int, b.1 as int),
            );
            if text.get_char(i) == '.' {
                bounds.push((tok_start, i));
                tok_start = i + 1;
                assert(bounds@.map_values(
                    |b: (usize, usize)| text@.subrange(b.0 as int, b.1 as int),
                ) =~= old_seqs.push(text@.subrange(bounds@.last().0 as int, i as int)));
                assert(text@.subrange(tok_start as int, i + 1) =~= Seq::<char>::empty());
            } else {
                assert(text@.subrange(tok_start as int, i + 1) =~= text@.subrange(
                    tok_start as int,
                    i as int,
                ).push(text@[i as int]));
                assert(split_on_dot(next) =~= old_seqs.push(
                    text@.subrange(tok_start as int, i + 1),
                ));
            }
            i = i + 1;
        }
        bounds.push((tok_start, n));
        assert(body.subrange(0, n - start) =~= body);
        let ghost tokens = bounds@.map_values(
            |b: (usize, usize)| text@.subrange(b.0 as int, b.1 as int),
        );
        assert(path_tokens(text@) =~= tokens);
        let mut components: Vec<PathComponent> = Vec::new();
        let mut k: usize = 0;
        while k < bounds.len()
            invariant
                n == text@.len(),
                k <= bounds.len(),
                n > 0,
                path_tokens(text@) == tokens,
                tokens.len() == bounds.len(),
                tokens == bounds@.map_values(
                    |b: (usize, usize)| text@.subrange(b.0 as int, b.1 as int),
                ),
                forall|j: int| 0 <= j < bounds.len() ==> (#[trigger] bounds@[j]).0 <= bounds@[j].1 <= n,
                components@.len() == k,
                forall|j: int|
                    0 <= j < k ==> token_component(tokens[j]) == Some(
                        (#[trigger] components@[j])@,
                    ),
            decreases bounds.len() - k,
        {
            let (from, to) = bounds[k];
            match token_at(text, from, to) {
                Some(c) => {
                    components.push(c);
                },
                None => {
                    assert(tokens[k as int] == text@.subrange(from as int, to as int));
                    assert(token_component(path_tokens(text@)[k as int]) is None);
                    assert(!tokens_ok(path_tokens(text@)));
                    assert(text@.len() != 0);
                    assert(parse_path(text@) is None);
                    let e = PathError { text: String::from_str(text) };
                    assert(e.text@ == text@);
                    return Err(e);
                },
            }
            k = k + 1;
        }
        let p = Path { is_relative: start == 1, components };
        assert forall|j: int| 0 <= j < tokens.len() implies (#[trigger] token_component(
            tokens[j],
        )) is Some by {
            assert(token_component(tokens[j]) == Some(components@[j]@));
        }
        assert(tokens_ok(path_tokens(text@)));
        assert forall|j: int| 0 <= j < tokens.len() implies p@.components[j] == token_component(
            tokens[j],
        )->Some_0 by {
            assert(token_component(tokens[j]) == Some(components@[j]@));
        }
        assert(p@.components =~= tokens.map_values(
            |x: Seq<char>| token_component(x)->Some_0,
        ));
        Ok(p)
    }

    /// A copy of the path.
    pub fn duplicate(&self) -> (r: Path)
        ensures
            r@ == self@,
    {
        let mut components: Vec<PathComponent> = Vec::new();
        let mut k: usize = 0;
        while k < self.components.len()
            invariant
                k <= self.components.len(),
                components@.len() == k,
                forall|j: int| 0 <= j < k ==> (#[trigger] components@[j])@ == self.components@[j]@,
            decreases self.components.len() - k,
        {
            let c = match &self.components[k] {
                PathComponent::Index(i) => PathComponent::Index(*i),
                PathComponent::Named(s) => PathComponent::Named(String::from_str(s.as_str())),
                PathComponent::Parent => PathComponent::Parent,
            };
            components.push(c);
            k = k + 1;
        }
        let r = Path { is_relative: self.is_relative, components };
        assert(r@.components =~= self@.components);
        r
    }

    /// The dotted text of the path.
    pub fn to_string(&self) -> (r: String)
        ensures
            r@ == render_path(self@),
    {
        let mut out = String::new();
        if self.is_relative {
            out.append(".");
            proof {
                reveal_strlit(".");
            }
        }
        let ghost prefix = out@;
        let ghost texts = self@.components.map_values(|c: ComponentView| component_text(c));
        let mut k: usize = 0;
        while k < self.components.len()
            invariant
                k <= self.components.len(),
                texts == self@.components.map_values(|c: ComponentView| component_text(c)),
                texts.len() == self.components.len(),
                out@ == prefix + join_dot(texts.subrange(0, k as int)),
            decreases self.components.len() - k,
        {
            let ghost before = out@;
            if k > 0 {
                out.append(".");
                proof {
                    reveal_strlit(".");
                }
            }
            match &self.components[k] {
                PathComponent::Index(i) => {
                    push_decimal(&mut out, *i);
                },
                PathComponent::Named(s) => {
                    out.append(s.as_str());
                },
                PathComponent::Parent => {
                    out.append("^");
                    proof {
                        reveal_strlit("^");
                    }
                },
            }
            assert(texts.subrange(0, k + 1).drop_last() =~= texts.subrange(0, k as int));
            assert(texts[k as int] == component_text(self.components@[k as int]@));
            if k == 0 {
                assert(join_dot(texts.subrange(0, 1)) == texts[0]);
            }
            assert(out@ =~= prefix + join_dot(texts.subrange(0, k + 1)));
            k = k + 1;
        }
        assert(texts.subrange(0, k as int) =~= texts);
        out
    }
}

} // verus!
