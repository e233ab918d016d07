//! Templates with substitutions: `Hello ${name}!`, `${include:a,b}`.
//!
//! A substitution is written `${directive}` or `${directive:arg1,arg2}`; everything
//! else is plain text.
use vstd::prelude::*;
use crate::error::{HyperlitError, HyperlitResult};
use crate::text::{chars_of, push_str, string_of_range};

verus! {

/// What `format!("{:?}", s)` gives for a string with the characters `s`: the
/// quoted, escaped debug form.
pub uninterp spec fn debug_str_of(s: Seq<char>) -> Seq<char>;

/// Trusted: the `Debug` text of a string slice (`format!("{:?}", s)`); the text is
/// named, not described.
#[verifier::external_body]
fn debug_str(s: &str) -> (r: String)
    ensures
        r@ == debug_str_of(s@),
{
    format!("{:?}", s)
}

/// A substitution of a template: its directive and arguments.
#[derive(Debug, Clone, PartialEq)]
pub struct TemplateStringSubstitution {
    pub directive: String,
    pub arguments: Vec<String>,
}

/// A part of a template: plain text or a substitution.
#[derive(Debug, Clone, PartialEq)]
pub enum TemplateStringPart {
    PlainText(String),
    Substitution(TemplateStringSubstitution),
}

/// What a part holds, as mathematical values.
pub enum PartView {
    Plain(Seq<char>),
    Sub(Seq<char>, Seq<Seq<char>>),
}

impl View for TemplateStringPart {
    type V = PartView;

    open spec fn view(&self) -> PartView {
        match self {
            TemplateStringPart::PlainText(t) => PartView::Plain(t@),
            TemplateStringPart::Substitution(s) => PartView::Sub(s.directive@, s.arguments@.map_values(|a: String| a@)),
        }
    }
}

/// A parsed template.
#[derive(Debug, Clone, PartialEq)]
pub struct TemplateString {
    pub parts: Vec<TemplateStringPart>,
}

/// The position of the first `c` in `s`.
pub open spec fn index_of(s: Seq<char>, c: char) -> Option<int>
    decreases s.len(),
{
    if s.len() == 0 {
        None
    } else if s[0] == c {
        Some(0)
    } else {
        match index_of(s.drop_first(), c) {
            Some(k) => Some(k + 1),
            None => None,
        }
    }
}

/// The substitution written inside `${` and `}`: the directive up to the first `:`,
/// then the arguments separated by `,` (one empty argument when there is no `:`).
pub open spec fn substitution_of(inner: Seq<char>) -> PartView {
    match index_of(inner, ':') {
        Some(k) => PartView::Sub(inner.take(k), crate::text::split_char(inner.skip(k + 1), ',')),
        None => PartView::Sub(inner, crate::text::split_char(Seq::empty(), ',')),
    }
}

/// Plain text `t` put in front of parsed parts (merged with plain text that follows).
pub open spec fn prepend_text(t: Seq<char>, rest: Seq<PartView>) -> Seq<PartView> {
    if t.len() == 0 {
        rest
    } else if rest.len() > 0 && rest[0] is Plain {
        rest.update(0, PartView::Plain(t + rest[0]->Plain_0))
    } else {
        seq![PartView::Plain(t)] + rest
    }
}

/// The parts of a template; `None` when a `${` has no closing `}`.
pub open spec fn parse_template(s: Seq<char>) -> Option<Seq<PartView>>
    decreases s.len(),
{
    if s.len() == 0 {
        Some(Seq::empty())
    } else if s.len() >= 2 && s[0] == '$' && s[1] == '{' {
        match index_of(s.skip(2), '}') {
            None => None,
            Some(k) => match {
                proof {
                    lemma_index_of_bounds(s.skip(2), '}');
                }
                parse_template(s.skip(k + 3))
            } {
                None => None,
                Some(rest) => Some(seq![substitution_of(s.subrange(2, k + 2))] + rest),
            },
        }
    } else {
        match parse_template(s.drop_first()) {
            None => None,
            Some(rest) => Some(prepend_text(seq![s[0]], rest)),
        }
    }
}

/// Where the first occurrence lies, if there is one.
pub proof fn lemma_index_of_bounds(s: Seq<char>, c: char)
    ensures
        index_of(s, c) matches Some(k) ==> 0 <= k < s.len() && s[k] == c
            && forall|j: int| 0 <= j < k ==> s[j] != c,
        index_of(s, c) is None ==> forall|j: int| 0 <= j < s.len() ==> s[j] != c,
    decreases s.len(),
{
    if s.len() > 0 {
        lemma_index_of_bounds(s.drop_first(), c);
        if s[0] != c {
            assert forall|j: int| 1 <= j < s.len() implies s[j] == s.drop_first()[j - 1] by {}
        }
    }
}

proof fn lemma_index_of_first(s: Seq<char>, c: char, k: int)
    requires
        0 <= k < s.len(),
        s[k] == c,
        forall|j: int| 0 <= j < k ==> s[j] != c,
    ensures
        index_of(s, c) == Some(k),
    decreases s.len(),
{
    if k > 0 {
        assert forall|j: int| 0 <= j < k - 1 implies s.drop_first()[j] != c by {
            assert(s.drop_first()[j] == s[j + 1]);
        }
        lemma_index_of_first(s.drop_first(), c, k - 1);
    }
}

proof fn lemma_index_of_none(s: Seq<char>, c: char)
    requires
        forall|j: int| 0 <= j < s.len() ==> s[j] != c,
    ensures
        index_of(s, c) is None,
    decreases s.len(),
{
    if s.len() > 0 {
        assert forall|j: int| 0 <= j < s.len() - 1 implies s.drop_first()[j] != c by {
            assert(s.drop_first()[j] == s[j + 1]);
        }
        lemma_index_of_none(s.drop_first(), c);
    }
}

/// The first position at or after `from` where `v` holds `c`.
fn find_char(v: &Vec<char>, from: usize, c: char) -> (r: Option<usize>)
    requires
        from <= v@.len(),
    ensures
        match r {
            Some(k) => from <= k < v@.len() && index_of(v@.skip(from as int), c) == Some(k - from),
            None => index_of(v@.skip(from as int), c) is None,
        },
{
    let mut k = from;
    while k < v.len()
        invariant
            from <= k <= v@.len(),
            forall|j: int| from <= j < k ==> v@[j] != c,
        decreases v.len() - k,
    {
        if v[k] == c {
            proof {
                lemma_index_of_first(v@.skip(from as int), c, k - from);
            }
            return Some(k);
        }
        k = k + 1;
    }
    proof {
        lemma_index_of_none(v@.skip(from as int), c);
    }
    None
}

/// Combines parts parsed so far, pending plain text, and the parse of the rest.
pub open spec fn combine(done: Seq<PartView>, pending: Seq<char>, rest: Option<Seq<PartView>>) -> Option<Seq<PartView>> {
    match rest {
        None => None,
        Some(r) => Some(done + prepend_text(pending, r)),
    }
}

proof fn lemma_prepend_assoc(t: Seq<char>, c: char, r: Seq<PartView>)
    ensures
        prepend_text(t, prepend_text(seq![c], r)) == prepend_text(t.push(c), r),
{
    let p = prepend_text(seq![c], r);
    if t.len() == 0 {
        assert(seq![c] =~= t.push(c));
    } else if r.len() > 0 && r[0] is Plain {
        assert(t + (seq![c] + r[0]->Plain_0) =~= t.push(c) + r[0]->Plain_0);
        assert(p.update(0, PartView::Plain(t + p[0]->Plain_0)) =~= r.update(0, PartView::Plain(t.push(c) + r[0]->Plain_0)));
    } else {
        assert(t + seq![c] =~= t.push(c));
        assert((seq![PartView::Plain(seq![c])] + r).update(0, PartView::Plain(t + seq![c])) =~= seq![PartView::Plain(t.push(c))] + r);
    }
}

/// Parse the substitution written between `${` and `}`.
fn parse_substitution(v: &Vec<char>, a: usize, b: usize) -> (p: TemplateStringPart)
    requires
        a <= b <= v@.len(),
    ensures
        p@ == substitution_of(v@.subrange(a as int, b as int)),
{
    let ghost inner = v@.subrange(a as int, b as int);
    let mut k = a;
    while k < b && v[k] != ':'
        invariant
            a <= k <= b,
            b <= v@.len(),
            forall|j: int| a <= j < k ==> v@[j] != ':',
        decreases b - k,
    {
        k = k + 1;
    }
    if k < b {
        proof {
            lemma_index_of_first(inner, ':', k - a);
            assert(inner.take(k - a) =~= v@.subrange(a as int, k as int));
            assert(inner.skip(k - a + 1) =~= v@.subrange(k + 1, b as int));
        }
        let directive = string_of_range(v, a, k);
        let args = string_of_range(v, k + 1, b);
        let arguments = crate::text::split_on(args.as_str(), ',');
        TemplateStringPart::Substitution(TemplateStringSubstitution { directive, arguments })
    } else {
        proof {
            lemma_index_of_none(inner, ':');
        }
        let directive = string_of_range(v, a, b);
        let empty = String::new();
        let arguments = crate::text::split_on(empty.as_str(), ',');
        TemplateStringPart::Substitution(TemplateStringSubstitution { directive, arguments })
    }
}

/// The views of a sequence of parts.
pub open spec fn part_views(ps: Seq<TemplateStringPart>) -> Seq<PartView> {
    ps.map_values(|p: TemplateStringPart| p@)
}

impl TemplateString {
    /// Parse a template; a `${` without a closing `}` is an error.
    pub fn parse(template: &str) -> (r: HyperlitResult<TemplateString>)
        ensures
            match r {
                Ok(t) => parse_template(template@) == Some(part_views(t.parts@)),
                Err(e) => parse_template(template@) is None && e.spec_kind() is Message
                    && e.spec_kind()->message@ == "Unterminated substitution in template: "@ + template@,
            },
    {
        let v = chars_of(template);
        let ghost s = v@;
        let mut parts: Vec<TemplateStringPart> = Vec::new();
        let mut pending: Vec<char> = Vec::new();
        let mut pos: usize = 0;
        assert(s.skip(0) =~= s);
        assert(part_views(parts@) =~= Seq::<PartView>::empty());
        assert(prepend_text(Seq::<char>::empty(), Seq::<PartView>::empty()) =~= Seq::<PartView>::empty());
        while pos < v.len()
            invariant
                pos <= s.len(),
                s == v@,
                s == template@,
                parse_template(s) == combine(part_views(parts@), pending@, parse_template(s.skip(pos as int))),
            decreases v.len() - pos,
        {
            let ghost rest = s.skip(pos as int);
            if pos + 1 < v.len() && v[pos] == '$' && v[pos + 1] == '{' {
                match find_char(&v, pos + 2, '}') {
                    None => {
                        proof {
                            assert(rest.skip(2) =~= s.skip(pos + 2));
                        }
                        let mut m = "Unterminated substitution in template: ".to_owned();
                        push_str(&mut m, template);
                        return Err(Box::new(HyperlitError::message(m.as_str())));
                    },
                    Some(close) => {
                        proof {
                            assert(rest.skip(2) =~= s.skip(pos + 2));
                            assert(rest.skip(close - pos + 1) =~= s.skip(close + 1));
                            assert(rest.subrange(2, close - pos) =~= s.subrange(pos + 2, close as int));
                        }
                        let sub = parse_substitution(&v, pos + 2, close);
                        let ghost before = part_views(parts@);
                        if pending.len() > 0 {
                            let t = string_of_range(&pending, 0, pending.len());
                            assert(pending@.subrange(0, pending@.len() as int) =~= pending@);
                            parts.push(TemplateStringPart::PlainText(t));
                        }
                        let ghost mid = part_views(parts@);
                        parts.push(sub);
                        proof {
                            assert(part_views(parts@) =~= mid.push(sub@));
                            let r2 = parse_template(s.skip(close + 1));
                            if r2 is Some {
                                let rr = r2->0;
                                if pending@.len() > 0 {
                                    assert(mid =~= before.push(PartView::Plain(pending@)));
                                    assert(prepend_text(pending@, seq![sub@] + rr) =~= seq![PartView::Plain(pending@)] + (seq![sub@] + rr));
                                } else {
                                    assert(mid =~= before);
                                }
                                assert(before + prepend_text(pending@, seq![sub@] + rr) =~= part_views(parts@) + prepend_text(Seq::<char>::empty(), rr));
                            }
                        }
                        pending = Vec::new();
                        pos = close + 1;
                    },
                }
            } else {
                let c = v[pos];
                proof {
                    assert(rest.drop_first() =~= s.skip(pos + 1));
                    assert(rest[0] == c);
                    let r2 = parse_template(s.skip(pos + 1));
                    if r2 is Some {
                        lemma_prepend_assoc(pending@, c, r2->0);
                    }
                }
                pending.push(c);
                pos = pos + 1;
            }
        }
        proof {
            assert(s.skip(pos as int) =~= Seq::<char>::empty());
        }
        if pending.len() > 0 {
            let t = string_of_range(&pending, 0, pending.len());
            assert(pending@.subrange(0, pending@.len() as int) =~= pending@);
            let ghost before = part_views(parts@);
            parts.push(TemplateStringPart::PlainText(t));
            assert(part_views(parts@) =~= before + seq![PartView::Plain(pending@)]);
        } else {
            assert(part_views(parts@) + prepend_text(pending@, Seq::<PartView>::empty()) =~= part_views(parts@));
        }
        Ok(TemplateString { parts })
    }
}


/// The `Debug` text of a list of strings' items, separated by `, `.
pub open spec fn debug_items(args: Seq<Seq<char>>) -> Seq<char>
    decreases args.len(),
{
    if args.len() == 0 {
        Seq::empty()
    } else if args.len() == 1 {
        debug_str_of(args[0])
    } else {
        debug_items(args.drop_last()) + ", "@ + debug_str_of(args.last())
    }
}

/// The `Debug` text of a substitution.
pub open spec fn substitution_debug(s: TemplateStringSubstitution) -> Seq<char> {
    "TemplateStringSubstitution { directive: "@ + debug_str_of(s.directive@) + ", arguments: ["@
        + debug_items(s.arguments@.map_values(|a: String| a@)) + "] }"@
}

/// The `Debug` text of a substitution.
fn substitution_debug_text(s: &TemplateStringSubstitution) -> (t: String)
    ensures
        t@ == substitution_debug(*s),
{
    let mut t = "TemplateStringSubstitution { directive: ".to_owned();
    let d = debug_str(s.directive.as_str());
    push_str(&mut t, d.as_str());
    push_str(&mut t, ", arguments: [");
    let ghost before = t@;
    let ghost av = s.arguments@.map_values(|a: String| a@);
    let mut i: usize = 0;
    assert(av.take(0) =~= Seq::<Seq<char>>::empty());
    while i < s.arguments.len()
        invariant
            i <= s.arguments@.len(),
            av == s.arguments@.map_values(|a: String| a@),
            t@ == before + debug_items(av.take(i as int)),
        decreases s.arguments.len() - i,
    {
        proof {
            assert(av.take(i + 1).drop_last() =~= av.take(i as int));
            assert(av.take(i + 1).last() == av[i as int]);
            if i == 0 {
                assert(av.take(1)[0] == av[0]);
            }
        }
        if i > 0 {
            push_str(&mut t, ", ");
        }
        let a = debug_str(s.arguments[i].as_str());
        push_str(&mut t, a.as_str());
        i = i + 1;
        assert(t@ =~= before + debug_items(av.take(i as int)));
    }
    assert(av.take(s.arguments@.len() as int) =~= av);
    push_str(&mut t, "] }");
    assert(t@ =~= substitution_debug(*s));
    t
}

/// The substitutions of a sequence of parts, in order.
pub open spec fn subs_of(ps: Seq<TemplateStringPart>) -> Seq<TemplateStringSubstitution>
    decreases ps.len(),
{
    if ps.len() == 0 {
        Seq::empty()
    } else {
        let r = subs_of(ps.drop_last());
        match ps.last() {
            TemplateStringPart::Substitution(s) => r.push(s),
            TemplateStringPart::PlainText(_) => r,
        }
    }
}

/// The text of the parts, each substitution replaced by the next of `vals`.
pub open spec fn render(ps: Seq<TemplateStringPart>, vals: Seq<Seq<char>>) -> Seq<char>
    decreases ps.len(),
{
    if ps.len() == 0 {
        Seq::empty()
    } else {
        match ps.last() {
            TemplateStringPart::PlainText(t) => render(ps.drop_last(), vals) + t@,
            TemplateStringPart::Substitution(_) => render(ps.drop_last(), vals.drop_last()) + vals.last(),
        }
    }
}

/// Expands templates by calling a function for each substitution.
#[derive(Debug, Clone)]
pub struct TemplateExpander {
    template_string: TemplateString,
}

impl TemplateExpander {
    /// The parts of the template.
    pub closed spec fn spec_parts(&self) -> Seq<TemplateStringPart> {
        self.template_string.parts@
    }

    /// Create an expander for a template; it is an error if the template does not
    /// parse.
    pub fn new(template: &str) -> (r: HyperlitResult<TemplateExpander>)
        ensures
            match r {
                Ok(t) => parse_template(template@) == Some(part_views(t.spec_parts())),
                Err(e) => parse_template(template@) is None && e.spec_kind() is Message
                    && e.spec_kind()->message@ == "Unterminated substitution in template: "@ + template@,
            },
    {
        match TemplateString::parse(template) {
            Ok(template_string) => Ok(TemplateExpander { template_string }),
            Err(e) => Err(e),
        }
    }

    /// Expand the template: plain text stays, each substitution is replaced by what
    /// `substitution_fn` gives for it. The first substitution that fails makes the
    /// error `Error substituting '<the substitution>'`, caused by the failure.
    pub fn expand<F: Fn(&TemplateStringSubstitution) -> HyperlitResult<String>>(&self, substitution_fn: F) -> (r: HyperlitResult<String>)
        requires
            forall|s: &TemplateStringSubstitution| #[trigger] substitution_fn.requires((s,)),
        ensures
            match r {
                Ok(out) => exists|vals: Seq<String>| #![trigger vals.len()]
                    vals.len() == subs_of(self.spec_parts()).len()
                    && (forall|k: int| 0 <= k < vals.len() ==> substitution_fn.ensures((&subs_of(self.spec_parts())[k],), Ok::<String, Box<HyperlitError>>(#[trigger] vals[k])))
                    && out@ == render(self.spec_parts(), vals.map_values(|v: String| v@)),
                Err(e) => exists|vals: Seq<String>, c: Box<HyperlitError>|
                    #![trigger substitution_fn.ensures((&subs_of(self.spec_parts())[vals.len() as int],), Err::<String, Box<HyperlitError>>(c))]
                    vals.len() < subs_of(self.spec_parts()).len()
                    && (forall|k: int| 0 <= k < vals.len() ==> substitution_fn.ensures((&subs_of(self.spec_parts())[k],), Ok::<String, Box<HyperlitError>>(#[trigger] vals[k])))
                    && substitution_fn.ensures((&subs_of(self.spec_parts())[vals.len() as int],), Err::<String, Box<HyperlitError>>(c))
                    && e.spec_kind() is Message
                    && e.spec_kind()->message@ == "Error substituting '"@ + substitution_debug(subs_of(self.spec_parts())[vals.len() as int]) + "'"@
                    && e.spec_context().len() == 0
                    && e.spec_cause() == Some(*c),
            },
    {
        let parts = &self.template_string.parts;
        let ghost ps = parts@;
        let mut out = String::new();
        let ghost mut vals: Seq<String> = Seq::empty();
        let mut i: usize = 0;
        assert(ps.take(0) =~= Seq::<TemplateStringPart>::empty());
        assert(vals.map_values(|v: String| v@) =~= Seq::<Seq<char>>::empty());
        while i < parts.len()
            invariant
                i <= ps.len(),
                ps == parts@,
                ps == self.spec_parts(),
                forall|s: &TemplateStringSubstitution| #[trigger] substitution_fn.requires((s,)),
                vals.len() == subs_of(ps.take(i as int)).len(),
                forall|k: int| 0 <= k < vals.len() ==> substitution_fn.ensures((&subs_of(ps.take(i as int))[k],), Ok::<String, Box<HyperlitError>>(#[trigger] vals[k])),
                out@ == render(ps.take(i as int), vals.map_values(|v: String| v@)),
            decreases parts.len() - i,
        {
            proof {
                assert(ps.take(i + 1).drop_last() =~= ps.take(i as int));
                assert(ps.take(i + 1).last() == ps[i as int]);
            }
            match &parts[i] {
                TemplateStringPart::PlainText(text) => {
                    push_str(&mut out, text.as_str());
                },
                TemplateStringPart::Substitution(substitution) => {
                    let res = substitution_fn(substitution);
                    match res {
                        Ok(expanded) => {
                            push_str(&mut out, expanded.as_str());
                            proof {
                                let old_vals = vals;
                                vals = vals.push(expanded);
                                assert(subs_of(ps.take(i + 1)) == subs_of(ps.take(i as int)).push(*substitution));
                                assert(vals.drop_last() =~= old_vals);
                                assert(vals.map_values(|v: String| v@).drop_last() =~= old_vals.map_values(|v: String| v@));
                                assert forall|k: int| 0 <= k < vals.len() implies substitution_fn.ensures((&subs_of(ps.take(i + 1))[k],), Ok::<String, Box<HyperlitError>>(#[trigger] vals[k])) by {
                                    if k < old_vals.len() {
                                        assert(vals[k] == old_vals[k]);
                                        assert(subs_of(ps.take(i + 1))[k] == subs_of(ps.take(i as int))[k]);
                                    }
                                }
                            }
                        },
                        Err(e) => {
                            let mut m = "Error substituting '".to_owned();
                            let d = substitution_debug_text(substitution);
                            push_str(&mut m, d.as_str());
                            push_str(&mut m, "'");
                            proof {
                                assert(subs_of(ps.take(i + 1)) == subs_of(ps.take(i as int)).push(*substitution));
                                lemma_subs_prefix(ps, i + 1);
                                let k = subs_of(ps.take(i as int)).len() as int;
                                assert(subs_of(ps)[k] == *substitution);
                                assert forall|j: int| 0 <= j < vals.len() implies substitution_fn.ensures((&subs_of(ps)[j],), Ok::<String, Box<HyperlitError>>(#[trigger] vals[j])) by {
                                    assert(subs_of(ps)[j] == subs_of(ps.take(i as int))[j]);
                                }
                                assert(substitution_fn.ensures((&subs_of(ps)[vals.len() as int],), Err::<String, Box<HyperlitError>>(e)));
                            }
                            let ghost c = e;
                            let err = Box::new(HyperlitError::message(m.as_str()).caused_by(*e));
                            assert(err.spec_cause() == Some(*c));
                            return Err(err);
                        },
                    }
                },
            }
            i = i + 1;
        }
        assert(ps.take(ps.len() as int) =~= ps);
        Ok(out)
    }
}

/// Law: a template of plain text alone expands to that text.
pub proof fn lemma_render_plain(t: TemplateStringPart)
    requires
        t is PlainText,
    ensures
        render(seq![t], Seq::empty()) == t->PlainText_0@,
{
    assert(seq![t].drop_last() =~= Seq::<TemplateStringPart>::empty());
    assert(seq![t].last() == t);
    assert(render(Seq::<TemplateStringPart>::empty(), Seq::empty()) == Seq::<char>::empty());
    assert(Seq::<char>::empty() + t->PlainText_0@ =~= t->PlainText_0@);
}

/// Law: a template of one substitution expands to the value given for it.
pub proof fn lemma_render_substitution(t: TemplateStringPart, v: Seq<char>)
    requires
        t is Substitution,
    ensures
        render(seq![t], seq![v]) == v,
{
    assert(seq![t].drop_last() =~= Seq::<TemplateStringPart>::empty());
    assert(seq![v].drop_last() =~= Seq::<Seq<char>>::empty());
    assert(seq![t].last() == t);
    assert(seq![v].last() == v);
    assert(render(Seq::<TemplateStringPart>::empty(), Seq::<Seq<char>>::empty()) == Seq::<char>::empty());
    assert(Seq::<char>::empty() + v =~= v);
}

/// Law: the expansion of two templates one after the other is the expansion of the
/// first followed by that of the second, each substitution taking its own value in
/// order.
pub proof fn lemma_render_concat(a: Seq<TemplateStringPart>, b: Seq<TemplateStringPart>, va: Seq<Seq<char>>, vb: Seq<Seq<char>>)
    requires
        va.len() == subs_of(a).len(),
        vb.len() == subs_of(b).len(),
    ensures
        subs_of(a + b) == subs_of(a) + subs_of(b),
        render(a + b, va + vb) == render(a, va) + render(b, vb),
    decreases b.len(),
{
    if b.len() == 0 {
        assert(a + b =~= a);
        assert(va + vb =~= va);
        assert(subs_of(a) + subs_of(b) =~= subs_of(a));
        assert(render(a, va) + render(b, vb) =~= render(a, va));
    } else {
        let b0 = b.drop_last();
        assert((a + b).drop_last() =~= a + b0);
        assert((a + b).last() == b.last());
        match b.last() {
            TemplateStringPart::PlainText(t) => {
                lemma_render_concat(a, b0, va, vb);
                assert(render(a, va) + render(b0, vb) + t@ =~= render(a, va) + (render(b0, vb) + t@));
            },
            TemplateStringPart::Substitution(x) => {
                let vb0 = vb.drop_last();
                lemma_render_concat(a, b0, va, vb0);
                assert((va + vb).drop_last() =~= va + vb0);
                assert((va + vb).last() == vb.last());
                assert(subs_of(a) + subs_of(b0).push(x) =~= (subs_of(a) + subs_of(b0)).push(x));
                assert(render(a, va) + render(b0, vb0) + vb.last() =~= render(a, va) + (render(b0, vb0) + vb.last()));
            },
        }
    }
}

/// The substitutions of a prefix of the parts are a prefix of their substitutions.
proof fn lemma_subs_prefix(ps: Seq<TemplateStringPart>, i: int)
    requires
        0 <= i <= ps.len(),
    ensures
        subs_of(ps.take(i)).len() <= subs_of(ps).len(),
        forall|k: int| 0 <= k < subs_of(ps.take(i)).len() ==> #[trigger] subs_of(ps)[k] == subs_of(ps.take(i))[k],
    decreases ps.len() - i,
{
    if i < ps.len() {
        lemma_subs_prefix(ps, i + 1);
        assert(ps.take(i + 1).drop_last() =~= ps.take(i));
        assert forall|k: int| 0 <= k < subs_of(ps.take(i)).len() implies #[trigger] subs_of(ps)[k] == subs_of(ps.take(i))[k] by {
            assert(subs_of(ps.take(i + 1))[k] == subs_of(ps.take(i))[k]);
        }
    } else {
        assert(ps.take(i) =~= ps);
    }
}

} // verus!
