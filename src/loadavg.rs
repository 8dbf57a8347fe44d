use vstd::prelude::*;
use vstd::string::StringExecFns;
use crate::elapsed::ParseError;
use crate::text::{split_tokens, tokens};

verus! {

/// The load averages over one, five and fifteen minutes, as the source wrote them.
#[derive(Debug, Clone)]
pub struct LoadAverage {
    pub one: String,
    pub five: String,
    pub fifteen: String,
}

/// The three averages separated by commas.
pub open spec fn load_phrase(l: &LoadAverage) -> Seq<char> {
    l.one@ + ", "@ + l.five@ + ", "@ + l.fifteen@
}

impl LoadAverage {
    /// Renders the three averages separated by commas.
    pub fn render(&self) -> (r: String)
        ensures
            r@ == load_phrase(self),
    {
        let mut s = self.one.clone();
        s.append(", ");
        s.append(self.five.as_str());
        s.append(", ");
        s.append(self.fifteen.as_str());
        s
    }
}

/// Reads the load averages: the first three white-space separated tokens of
/// the text, verbatim. Fails where the text holds fewer than three tokens.
pub fn parse_loadavg(text: &str) -> (r: Result<LoadAverage, ParseError>)
    ensures
        r is Ok <==> tokens(text@).len() >= 3,
        r is Ok ==> r->Ok_0.one@ == tokens(text@)[0] && r->Ok_0.five@ == tokens(text@)[1]
            && r->Ok_0.fifteen@ == tokens(text@)[2],
{
    let words = split_tokens(text);
    if words.len() < 3 {
        return Err(ParseError);
    }
    proof {
        assert(words[0]@ == words.deep_view()[0]);
        assert(words[1]@ == words.deep_view()[1]);
        assert(words[2]@ == words.deep_view()[2]);
    }
    Ok(LoadAverage { one: words[0].clone(), five: words[1].clone(), fifteen: words[2].clone() })
}

} // verus!
