//! Prompts for language models.

use crate::engine::RequestModel;
use crate::engine::TranslateRequest;
use crate::lang;
use crate::lang::Lang;
use crate::text;
use vstd::prelude::*;

verus! {

/// The instructions that a model gets where none are configured.
pub const DEFAULT_SYSTEM_PROMPT: &'static str =
    "You are a professional translator. Translate the user's text accurately and naturally. Output ONLY the translation, without explanations, quotes, or notes.";

/// The template of a request where none is configured.
pub const DEFAULT_USER_TEMPLATE: &'static str =
    "Translate the following {source} text to {target}:\n\n{text}";

/// `template` with the names of the languages and then the text put in.
pub open spec fn rendered(template: Seq<char>, text: Seq<char>, from: Lang, to: Lang) -> Seq<char> {
    let a = text::replace(template, "{source}"@, lang::display_name(from));
    let b = text::replace(a, "{target}"@, lang::display_name(to));
    text::replace(b, "{text}"@, text)
}

/// `template` with the names of the languages and then the text put in.
pub fn render_user_prompt(template: &str, text: &str, from: Lang, to: Lang) -> (r: String)
    ensures
        r@ == rendered(template@, text@, from, to),
{
    proof {
        reveal_strlit("{source}");
        reveal_strlit("{target}");
        reveal_strlit("{text}");
    }
    let a = text::replaced(template, "{source}", lang::display(from));
    let b = text::replaced(&a, "{target}", lang::display(to));
    text::replaced(&b, "{text}", text)
}

/// The instructions and the request for a model: the configured ones, else the
/// built-in ones.
pub open spec fn prompts_for(
    system: Option<Seq<char>>,
    template: Option<Seq<char>>,
    req: RequestModel,
) -> (Seq<char>, Seq<char>) {
    (
        match system {
            Some(s) => s,
            None => DEFAULT_SYSTEM_PROMPT@,
        },
        rendered(
            match template {
                Some(t) => t,
                None => DEFAULT_USER_TEMPLATE@,
            },
            req.text,
            req.from,
            req.to,
        ),
    )
}

/// The instructions and the request for a model.
pub fn prompts(
    system: &Option<String>,
    template: &Option<String>,
    req: &TranslateRequest,
) -> (r: (String, String))
    ensures
        (r.0@, r.1@) == prompts_for(system.deep_view(), template.deep_view(), req.deep_view()),
{
    let s: String = match system {
        Some(s) => text::copy(s),
        None => text::copy(DEFAULT_SYSTEM_PROMPT),
    };
    let u: String = match template {
        Some(t) => render_user_prompt(t, &req.text, req.from, req.to),
        None => render_user_prompt(DEFAULT_USER_TEMPLATE, &req.text, req.from, req.to),
    };
    (s, u)
}

/// A template without placeholders is the prompt as it is.
pub proof fn law_text_without_placeholders_is_kept(
    template: Seq<char>,
    text: Seq<char>,
    from: Lang,
    to: Lang,
)
    requires
        !text::occurs(template, "{source}"@),
        !text::occurs(template, "{target}"@),
        !text::occurs(template, "{text}"@),
    ensures
        rendered(template, text, from, to) == template,
{
    reveal_strlit("{source}");
    reveal_strlit("{target}");
    reveal_strlit("{text}");
    text::lemma_replace_absent(template, "{source}"@, lang::display_name(from));
    text::lemma_replace_absent(template, "{target}"@, lang::display_name(to));
    text::lemma_replace_absent(template, "{text}"@, text);
}

/// A template with the three placeholders becomes the prompt that has the name
/// of the language of the text, the name of the language to translate into and
/// the text in their places, whatever the text holds.
pub proof fn law_placeholders_are_filled(
    a: Seq<char>,
    b: Seq<char>,
    c: Seq<char>,
    d: Seq<char>,
    text: Seq<char>,
    from: Lang,
    to: Lang,
)
    requires
        text::no_brace(a),
        text::no_brace(b),
        text::no_brace(c),
        text::no_brace(d),
    ensures
        rendered(a + ("{source}"@ + (b + ("{target}"@ + (c + ("{text}"@ + d))))), text, from, to)
            == a + ((match from {
            Lang::En => "English"@,
            Lang::Zh => "Chinese (Simplified)"@,
        }) + (b + ((match to {
            Lang::En => "English"@,
            Lang::Zh => "Chinese (Simplified)"@,
        }) + (c + (text + d))))),
{
    reveal_strlit("{source}");
    reveal_strlit("{target}");
    reveal_strlit("{text}");
    reveal_strlit("English");
    reveal_strlit("Chinese (Simplified)");
    let (p1, p2, p3) = ("{source}"@, "{target}"@, "{text}"@);
    let n1 = lang::display_name(from);
    let n2 = lang::display_name(to);
    // The first placeholder.
    let r1 = b + (p2 + (c + (p3 + d)));
    let t1 = a + (p1 + r1);
    assert forall|i: int| 0 <= i < a.len() implies !#[trigger] text::occurs_at(t1, p1, i) by {
        if text::occurs_at(t1, p1, i) {
            assert(t1.subrange(i, i + p1.len())[0] == t1[i]);
            assert(t1[i] == a[i]);
        }
    }
    assert forall|i: int| !text::occurs_at(r1, p1, i) by {
        if text::occurs_at(r1, p1, i) {
            let w = r1.subrange(i, i + p1.len());
            assert(w[0] == r1[i] && w[1] == r1[i + 1]);
            if i < b.len() {
                assert(r1[i] == b[i]);
            } else if i < b.len() + p2.len() {
                assert(r1[i] == p2[i - b.len()]);
                if i == b.len() {
                    assert(r1[i + 1] == p2[1]);
                }
            } else if i < b.len() + p2.len() + c.len() {
                assert(r1[i] == c[i - b.len() - p2.len()]);
            } else if i < b.len() + p2.len() + c.len() + p3.len() {
                let k = i - b.len() - p2.len() - c.len();
                assert(r1[i] == p3[k]);
                if k == 0 {
                    assert(r1[i + 1] == p3[1]);
                }
            } else {
                assert(r1[i] == d[i - b.len() - p2.len() - c.len() - p3.len()]);
            }
        }
    }
    text::lemma_replace_once(a, p1, r1, n1);
    // The second.
    let f2 = a + (n1 + b);
    let r2 = c + (p3 + d);
    let t2 = f2 + (p2 + r2);
    assert(a + (n1 + r1) =~= t2);
    assert forall|i: int| 0 <= i < f2.len() implies !#[trigger] text::occurs_at(t2, p2, i) by {
        if text::occurs_at(t2, p2, i) {
            assert(t2.subrange(i, i + p2.len())[0] == t2[i]);
            if i < a.len() {
                assert(t2[i] == a[i]);
            } else if i < a.len() + n1.len() {
                assert(t2[i] == n1[i - a.len()]);
            } else {
                assert(t2[i] == b[i - a.len() - n1.len()]);
            }
        }
    }
    assert forall|i: int| !text::occurs_at(r2, p2, i) by {
        if text::occurs_at(r2, p2, i) {
            let w = r2.subrange(i, i + p2.len());
            assert(w[0] == r2[i] && w[2] == r2[i + 2]);
            if i < c.len() {
                assert(r2[i] == c[i]);
            } else if i < c.len() + p3.len() {
                assert(r2[i] == p3[i - c.len()]);
                if i == c.len() {
                    assert(r2[i + 2] == p3[2]);
                }
            } else {
                assert(r2[i] == d[i - c.len() - p3.len()]);
            }
        }
    }
    text::lemma_replace_once(f2, p2, r2, n2);
    // The third.
    let f3 = f2 + (n2 + c);
    let t3 = f3 + (p3 + d);
    assert(f2 + (n2 + r2) =~= t3);
    assert forall|i: int| 0 <= i < f3.len() implies !#[trigger] text::occurs_at(t3, p3, i) by {
        if text::occurs_at(t3, p3, i) {
            assert(t3.subrange(i, i + p3.len())[0] == t3[i]);
            if i < a.len() {
                assert(t3[i] == a[i]);
            } else if i < a.len() + n1.len() {
                assert(t3[i] == n1[i - a.len()]);
            } else if i < f2.len() {
                assert(t3[i] == b[i - a.len() - n1.len()]);
            } else if i < f2.len() + n2.len() {
                assert(t3[i] == n2[i - f2.len()]);
            } else {
                assert(t3[i] == c[i - f2.len() - n2.len()]);
            }
        }
    }
    assert forall|i: int| !text::occurs_at(d, p3, i) by {
        if text::occurs_at(d, p3, i) {
            assert(d.subrange(i, i + p3.len())[0] == d[i]);
        }
    }
    text::lemma_replace_once(f3, p3, d, text);
    assert(f3 + (text + d) =~= a + (n1 + (b + (n2 + (c + (text + d))))));
}

/// A template with nothing but the text, and what stands round it, becomes the
/// text with the same round it.
pub proof fn law_text_is_filled_in(
    a: Seq<char>,
    d: Seq<char>,
    text: Seq<char>,
    from: Lang,
    to: Lang,
)
    requires
        text::no_brace(a),
        text::no_brace(d),
    ensures
        rendered(a + ("{text}"@ + d), text, from, to) == a + (text + d),
{
    reveal_strlit("{source}");
    reveal_strlit("{target}");
    reveal_strlit("{text}");
    let (p1, p2, p3) = ("{source}"@, "{target}"@, "{text}"@);
    let t = a + (p3 + d);
    assert forall|i: int| 0 <= i < t.len() && #[trigger] t[i] == '{' implies i == a.len() by {
        if i < a.len() {
            assert(t[i] == a[i]);
        } else if i >= a.len() + p3.len() {
            assert(t[i] == d[i - a.len() - p3.len()]);
        } else {
            assert(t[i] == p3[i - a.len()]);
        }
    }
    let at = a.len() as int;
    assert(t[at + 1] == p3[1] && t[at + 2] == p3[2]);
    assert forall|i: int| !text::occurs_at(t, p1, i) by {
        if text::occurs_at(t, p1, i) {
            let w = t.subrange(i, i + p1.len());
            assert(w[0] == t[i] && w[1] == t[i + 1]);
        }
    }
    assert forall|i: int| !text::occurs_at(t, p2, i) by {
        if text::occurs_at(t, p2, i) {
            let w = t.subrange(i, i + p2.len());
            assert(w[0] == t[i] && w[2] == t[i + 2]);
        }
    }
    text::lemma_replace_absent(t, p1, lang::display_name(from));
    text::lemma_replace_absent(t, p2, lang::display_name(to));
    assert forall|i: int| 0 <= i < a.len() implies !#[trigger] text::occurs_at(t, p3, i) by {
        if text::occurs_at(t, p3, i) {
            assert(t.subrange(i, i + p3.len())[0] == t[i]);
        }
    }
    assert forall|i: int| !text::occurs_at(d, p3, i) by {
        if text::occurs_at(d, p3, i) {
            assert(d.subrange(i, i + p3.len())[0] == d[i]);
        }
    }
    text::lemma_replace_once(a, p3, d, text);
}

/// Without a template of its own, a model is told both languages by name and
/// given the text, word for word, at the end; without instructions of its own,
/// it is told to translate and to say nothing else. What is configured takes the
/// place of either.
pub proof fn law_prompts(system: Option<Seq<char>>, template: Option<Seq<char>>, req: RequestModel)
    ensures
        system is Some ==> prompts_for(system, template, req).0 == system->0,
        system is None ==> prompts_for(system, template, req).0
            == "You are a professional translator. Translate the user's text accurately and naturally. Output ONLY the translation, without explanations, quotes, or notes."@,
        template is None ==> prompts_for(system, template, req).1 == "Translate the following "@
            + ((match req.from {
            Lang::En => "English"@,
            Lang::Zh => "Chinese (Simplified)"@,
        }) + (" text to "@ + ((match req.to {
            Lang::En => "English"@,
            Lang::Zh => "Chinese (Simplified)"@,
        }) + (":\n\n"@ + req.text)))),
        template is Some && template->0 == "{text}"@ ==> prompts_for(system, template, req).1
            == req.text,
        template is Some ==> prompts_for(system, template, req).1 == rendered(
            template->0,
            req.text,
            req.from,
            req.to,
        ),
{
    let none = Seq::<char>::empty();
    law_text_is_filled_in(none, none, req.text, req.from, req.to);
    assert(none + ("{text}"@ + none) =~= "{text}"@);
    assert(none + (req.text + none) =~= req.text);
    reveal_strlit("Translate the following {source} text to {target}:\n\n{text}");
    reveal_strlit("Translate the following ");
    reveal_strlit(" text to ");
    reveal_strlit(":\n\n");
    reveal_strlit("{source}");
    reveal_strlit("{target}");
    reveal_strlit("{text}");
    let a = "Translate the following "@;
    let b = " text to "@;
    let c = ":\n\n"@;
    law_placeholders_are_filled(a, b, c, none, req.text, req.from, req.to);
    assert(DEFAULT_USER_TEMPLATE@ =~= a + ("{source}"@ + (b + ("{target}"@ + (c + ("{text}"@
        + none))))));
    assert(req.text + none =~= req.text);
}

} // verus!
