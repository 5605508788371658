use vstd::prelude::*;
use vstd::string::StrSliceExecFns;

verus! {

/// One turn of a conversation: the user's query plus the produced answer.
/// Only the query text matters to the store (it supplies the title); the
/// answer is carried through opaquely.
#[derive(Debug)]
pub struct Exchange {
    pub query: String,
    pub answer: String,
}

pub ghost struct ExchangeView {
    pub query: Seq<char>,
    pub answer: Seq<char>,
}

impl View for Exchange {
    type V = ExchangeView;

    open spec fn view(&self) -> ExchangeView {
        ExchangeView { query: self.query@, answer: self.answer@ }
    }
}

/// The views of a sequence of exchanges.
pub open spec fn exchange_views(s: Seq<Exchange>) -> Seq<ExchangeView> {
    s.map_values(|e: Exchange| e@)
}

/// The title derived from a query: its characters up to, and not including,
/// the first newline; the whole query if it has no newline.
pub open spec fn title_of(q: Seq<char>) -> Seq<char>
    decreases q.len(),
{
    if q.len() == 0 {
        Seq::<char>::empty()
    } else if q[0] == '\n' {
        Seq::<char>::empty()
    } else {
        seq![q[0]] + title_of(q.drop_first())
    }
}

/// A conversation may be persisted only if it has at least one exchange and
/// the first exchange carries query text.
pub open spec fn valid_for_store(exchanges: Seq<ExchangeView>) -> bool {
    exchanges.len() > 0 && exchanges[0].query.len() > 0
}

proof fn lemma_title_of_prefix(q: Seq<char>, i: int)
    requires
        0 <= i <= q.len(),
        forall|k: int| 0 <= k < i ==> q[k] != '\n',
        i == q.len() || q[i] == '\n',
    ensures
        title_of(q) == q.subrange(0, i),
    decreases q.len(),
{
    if i == 0 {
        assert(q.subrange(0, 0) =~= Seq::<char>::empty());
    } else {
        lemma_title_of_prefix(q.drop_first(), i - 1);
        assert(seq![q[0]] + q.drop_first().subrange(0, i - 1) =~= q.subrange(0, i));
    }
}

/// Derive the title of a query: the text up to the first newline.
pub fn first_line(q: &str) -> (r: String)
    ensures
        r@ == title_of(q@),
{
    let len: usize = q.unicode_len();
    let mut i: usize = 0;
    loop
        invariant
            len == q@.len(),
            i <= len,
            forall|k: int| 0 <= k < i ==> q@[k] != '\n',
        ensures
            i <= len,
            forall|k: int| 0 <= k < i ==> q@[k] != '\n',
            i == len || q@[i as int] == '\n',
        decreases len - i,
    {
        if i >= len {
            break;
        }
        if q.get_char(i) == '\n' {
            break;
        }
        i = i + 1;
    }
    proof {
        lemma_title_of_prefix(q@, i as int);
    }
    let t = q.substring_char(0, i);
    t.to_owned()
}

/// Transport projection of an exchange for detail reads: a smaller value
/// that carries the query text only, never the full answer.
#[derive(Debug)]
pub struct CompressedExchange {
    pub query: String,
}

pub ghost struct CompressedExchangeView {
    pub query: Seq<char>,
}

impl View for CompressedExchange {
    type V = CompressedExchangeView;

    open spec fn view(&self) -> CompressedExchangeView {
        CompressedExchangeView { query: self.query@ }
    }
}

/// The pure, side-effect-free projection applied to each exchange on the
/// detail-read path.
pub open spec fn compress(e: ExchangeView) -> CompressedExchangeView {
    CompressedExchangeView { query: e.query }
}

impl Exchange {
    /// Project this exchange into its transport representation.
    pub fn compressed(&self) -> (r: CompressedExchange)
        ensures
            r@ == compress(self@),
    {
        CompressedExchange { query: self.query.clone() }
    }
}

} // verus!
