//! Youdao's web endpoint. Its reply holds segments, whose translations are put
//! together without anything between them.

use crate::engine::{body_of, no_params, outcome, parse_error, push_param};
use crate::engine::{EngineError, ErrorModel, HttpModel, HttpRequest, Method, Reply, RequestModel};
use crate::engine::TranslateRequest;
use crate::lang::Lang;
use crate::text;
use vstd::prelude::*;

verus! {

/// The engine at a base address.
pub struct YoudaoEngine {
    pub base: String,
}

/// The endpoint's name for a direction.
pub open spec fn kind(to: Lang) -> Seq<char> {
    match to {
        Lang::Zh => "EN2ZH_CN"@,
        Lang::En => "ZH_CN_EN"@,
    }
}

/// The request for a text.
pub open spec fn request_for(base: Seq<char>, req: RequestModel) -> HttpModel {
    HttpModel {
        method: Method::Get,
        url: base + "/translate"@,
        query: Seq::empty().push(("doctype"@, "json"@)).push(("type"@, kind(req.to))).push(
            ("i"@, req.text),
        ),
        headers: Seq::empty(),
        body: None,
    }
}

/// The members one after the other.
pub open spec fn concat(ps: Seq<Seq<char>>) -> Seq<char>
    decreases ps.len(),
{
    if ps.len() == 0 {
        Seq::empty()
    } else {
        concat(ps.drop_last()) + ps.last()
    }
}

/// All segments of all paragraphs one after the other.
pub open spec fn concat_all(pss: Seq<Seq<Seq<char>>>) -> Seq<char>
    decreases pss.len(),
{
    if pss.len() == 0 {
        Seq::empty()
    } else {
        concat_all(pss.drop_last()) + concat(pss.last())
    }
}

/// The translation that segments make up.
pub open spec fn translation_in(segments: Seq<Seq<Seq<char>>>) -> Result<Seq<char>, ErrorModel> {
    if concat_all(segments).len() == 0 {
        Err(ErrorModel::Parse("empty translateResult"@))
    } else {
        Ok(concat_all(segments))
    }
}

/// The translation in a reply whose body holds the segments of each paragraph.
pub open spec fn answer_for(reply: Reply<Vec<Vec<String>>>) -> Result<Seq<char>, ErrorModel> {
    match reply {
        Reply::NotSent(why) => Err(ErrorModel::Network(why@)),
        Reply::BadStatus(why) => Err(ErrorModel::Api(why@)),
        Reply::Unread(why) => Err(ErrorModel::Parse(why@)),
        Reply::Read(segments) => translation_in(segments.deep_view()),
    }
}

fn youdao_type(to: Lang) -> (r: &'static str)
    ensures
        r@ == kind(to),
{
    match to {
        Lang::Zh => "EN2ZH_CN",
        Lang::En => "ZH_CN_EN",
    }
}

fn append_all(out: &mut String, ps: &Vec<String>)
    ensures
        final(out)@ == old(out)@ + concat(ps.deep_view()),
{
    let ghost start = out@;
    let mut i: usize = 0;
    assert(start + concat(ps.deep_view().take(0)) =~= start);
    while i < ps.len()
        invariant
            i <= ps@.len(),
            out@ == start + concat(ps.deep_view().take(i as int)),
        decreases ps@.len() - i,
    {
        assert(ps.deep_view().take(i + 1).drop_last() =~= ps.deep_view().take(i as int));
        out.append(&ps[i]);
        assert(out@ =~= start + concat(ps.deep_view().take(i + 1)));
        i += 1;
    }
    assert(ps.deep_view().take(i as int) =~= ps.deep_view());
}

impl YoudaoEngine {
    /// The engine at the address that the environment names, else at its own.
    pub fn new(env: Option<String>) -> (r: YoudaoEngine)
        ensures
            r.base@ == (match env {
                Some(b) => b@,
                None => "https://fanyi.youdao.com"@,
            }),
    {
        match env {
            Some(base) => YoudaoEngine { base },
            None => YoudaoEngine { base: text::copy("https://fanyi.youdao.com") },
        }
    }

    /// The engine at the given address.
    pub fn new_with_base(base: String) -> (r: YoudaoEngine)
        ensures
            r.base == base,
    {
        YoudaoEngine { base }
    }

    /// The request for a text.
    pub fn request(&self, req: &TranslateRequest) -> (r: HttpRequest)
        ensures
            r.deep_view() == request_for(self.base@, req.deep_view()),
    {
        let mut query = no_params();
        push_param(&mut query, "doctype", "json");
        push_param(&mut query, "type", youdao_type(req.to));
        push_param(&mut query, "i", &req.text);
        HttpRequest {
            method: Method::Get,
            url: text::cat(&self.base, "/translate"),
            query,
            headers: no_params(),
            body: None,
        }
    }

    /// The translation in a reply whose body holds the segments of each paragraph.
    pub fn answer(&self, reply: Reply<Vec<Vec<String>>>) -> (r: Result<String, EngineError>)
        ensures
            outcome(r) == answer_for(reply),
    {
        match body_of(reply) {
            Err(e) => Err(e),
            Ok(segments) => {
                let ghost all = segments.deep_view();
                let mut out = String::new();
                let mut i: usize = 0;
                assert(out@ =~= concat_all(all.take(0)));
                while i < segments.len()
                    invariant
                        i <= segments@.len(),
                        all == segments.deep_view(),
                        out@ == concat_all(all.take(i as int)),
                    decreases segments@.len() - i,
                {
                    assert(all.take(i + 1).drop_last() =~= all.take(i as int));
                    append_all(&mut out, &segments[i]);
                    i += 1;
                }
                assert(all.take(i as int) =~= all);
                if text::empty(&out) {
                    return Err(parse_error("empty translateResult"));
                }
                Ok(out)
            },
        }
    }
}

// Laws

/// A request gives the text as it is and the direction of the translation.
pub proof fn law_request(base: Seq<char>, req: RequestModel)
    ensures
        request_for(base, req).method == Method::Get,
        request_for(base, req).url == base + "/translate"@,
        request_for(base, req).body is None,
        crate::engine::valued(request_for(base, req).query, "i"@, req.text),
        crate::engine::valued(request_for(base, req).query, "doctype"@, "json"@),
        req.to == Lang::Zh ==> crate::engine::valued(
            request_for(base, req).query,
            "type"@,
            "EN2ZH_CN"@,
        ),
        req.to == Lang::En ==> crate::engine::valued(
            request_for(base, req).query,
            "type"@,
            "ZH_CN_EN"@,
        ),
{
    reveal_strlit("doctype");
    reveal_strlit("type");
    reveal_strlit("i");
    let l = request_for(base, req).query;
    assert("doctype"@.len() == 7 && "type"@.len() == 4 && "i"@.len() == 1);
    assert(l[0] == ("doctype"@, "json"@));
    assert(l[1] == ("type"@, kind(req.to)));
    assert(l[2] == ("i"@, req.text));
    assert(l.len() == 3);
}

/// One segment is the translation where it is not empty. A segment more in the
/// last paragraph, or one in a new paragraph, is added at the end, with nothing
/// between. Without any character there is no translation.
pub proof fn law_segments(pss: Seq<Seq<Seq<char>>>, x: Seq<char>)
    ensures
        x.len() > 0 ==> translation_in(seq![seq![x]]) == Ok::<Seq<char>, ErrorModel>(x),
        translation_in(pss) is Ok ==> translation_in(pss.push(seq![x])) == Ok::<
            Seq<char>,
            ErrorModel,
        >(translation_in(pss)->Ok_0 + x),
        translation_in(pss) is Ok ==> translation_in(
            pss.drop_last().push(pss.last().push(x)),
        ) == Ok::<Seq<char>, ErrorModel>(translation_in(pss)->Ok_0 + x),
        translation_in(Seq::empty()) is Err,
        translation_in(seq![seq![Seq::<char>::empty()]]) is Err,
{
    reveal_with_fuel(concat, 3);
    reveal_with_fuel(concat_all, 3);
    let none = Seq::<char>::empty();
    assert(seq![x].drop_last() =~= Seq::<Seq<char>>::empty());
    assert(concat(seq![x]) =~= x);
    assert(seq![none].drop_last() =~= Seq::<Seq<char>>::empty());
    assert(concat(seq![none]) =~= none);
    assert(seq![seq![x]].drop_last() =~= Seq::<Seq<Seq<char>>>::empty());
    assert(concat_all(seq![seq![x]]) =~= x);
    assert(seq![seq![none]].drop_last() =~= Seq::<Seq<Seq<char>>>::empty());
    assert(concat_all(seq![seq![none]]) =~= none);
    if translation_in(pss) is Ok {
        assert(pss.push(seq![x]).drop_last() =~= pss);
        assert(concat_all(pss.push(seq![x])) =~= concat_all(pss) + x);
        let longer = pss.drop_last().push(pss.last().push(x));
        assert(longer.drop_last() =~= pss.drop_last());
        assert(pss.last().push(x).drop_last() =~= pss.last());
        assert(concat_all(longer) =~= concat_all(pss) + x);
    }
}

} // verus!
