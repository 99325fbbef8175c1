//! The live Telegram configuration a turn resolves, the Bot API URL built
//! from it, and the split of a reply target into chat and thread.

use vstd::prelude::*;
use vstd::string::*;

verus! {

/// Live Telegram configuration required to resolve and deliver a sticker.
/// The caller supplies it for each invocation; the tool never keeps one.
#[derive(Clone)]
pub struct TelegramStickerConfig {
    pub bot_token: String,
    pub api_base_url: String,
    pub proxy_url: Option<String>,
    pub sticker_sets: Vec<String>,
}

/// `s.trim_end_matches('/')`.
pub open spec fn trim_end_slashes(s: Seq<char>) -> Seq<char>
    decreases s.len(),
{
    if s.len() > 0 && s.last() == '/' {
        trim_end_slashes(s.drop_last())
    } else {
        s
    }
}

/// `{base without trailing '/'}/bot{token}/{method}`.
pub open spec fn api_url_spec(base: Seq<char>, token: Seq<char>, method: Seq<char>) -> Seq<char> {
    trim_end_slashes(base) + "/bot"@ + token + "/"@ + method
}

/// Trimming keeps a prefix of the text that is empty or does not end in '/',
/// and removes only '/' characters after it.
pub proof fn lemma_trim_end_slashes(s: Seq<char>)
    ensures
        trim_end_slashes(s).len() <= s.len(),
        s.take(trim_end_slashes(s).len() as int) == trim_end_slashes(s),
        forall|i: int| trim_end_slashes(s).len() <= i < s.len() ==> s[i] == '/',
        trim_end_slashes(s).len() == 0 || trim_end_slashes(s).last() != '/',
    decreases s.len(),
{
    if s.len() > 0 && s.last() == '/' {
        lemma_trim_end_slashes(s.drop_last());
        let p = trim_end_slashes(s.drop_last());
        assert(s.take(p.len() as int) =~= s.drop_last().take(p.len() as int));
        assert forall|i: int| p.len() <= i < s.len() implies s[i] == '/' by {
            if i < s.len() - 1 {
                assert(s[i] == s.drop_last()[i]);
            }
        }
    } else {
        assert(s.take(s.len() as int) =~= s);
    }
}

/// The Bot API URL is the base URL without its trailing slashes, then
/// `/bot`, then the whole bot token exactly as configured (an `id:secret`
/// token keeps its colon and secret), then `/` and the method.
pub proof fn law_api_url_keeps_whole_token(base: Seq<char>, token: Seq<char>, method: Seq<char>)
    ensures
        exists|p: Seq<char>|
            api_url_spec(base, token, method) == p + "/bot"@ + token + "/"@ + method && p.len() <= base.len()
                && base.take(p.len() as int) == p && (forall|i: int| p.len() <= i < base.len() ==> base[i] == '/')
                && (p.len() == 0 || p.last() != '/'),
{
    lemma_trim_end_slashes(base);
    let p = trim_end_slashes(base);
    assert(api_url_spec(base, token, method) == p + "/bot"@ + token + "/"@ + method);
}

/// `s.split_once(c)`: the text before the first `c` and the text after it.
pub open spec fn split_once_spec(s: Seq<char>, c: char) -> Option<(Seq<char>, Seq<char>)>
    decreases s.len(),
{
    if s.len() == 0 {
        None
    } else if s[0] == c {
        Some((Seq::empty(), s.drop_first()))
    } else {
        match split_once_spec(s.drop_first(), c) {
            Some((a, b)) => Some((seq![s[0]] + a, b)),
            None => None,
        }
    }
}

/// Where `c` occurs first in `s`, `split_once` cuts there.
pub proof fn lemma_split_at_first(s: Seq<char>, c: char, i: int)
    requires
        0 <= i < s.len(),
        s[i] == c,
        forall|j: int| 0 <= j < i ==> s[j] != c,
    ensures
        split_once_spec(s, c) == Some((s.take(i), s.skip(i + 1))),
    decreases i,
{
    if i > 0 {
        lemma_split_at_first(s.drop_first(), c, i - 1);
        assert(seq![s[0]] + s.drop_first().take(i - 1) =~= s.take(i));
        assert(s.drop_first().skip(i) =~= s.skip(i + 1));
    } else {
        assert(s.take(0) =~= Seq::<char>::empty());
        assert(s.drop_first() =~= s.skip(1));
    }
}

/// Without `c` in `s`, `split_once` finds nothing.
pub proof fn lemma_split_none(s: Seq<char>, c: char)
    requires
        forall|j: int| 0 <= j < s.len() ==> s[j] != c,
    ensures
        split_once_spec(s, c) is None,
    decreases s.len(),
{
    if s.len() > 0 {
        lemma_split_none(s.drop_first(), c);
    }
}

/// The two parts of a split put back together around `c` give the text,
/// and the first part holds no `c`.
pub proof fn law_split_once_roundtrip(s: Seq<char>, c: char)
    ensures
        split_once_spec(s, c) matches Some((a, b)) ==> s == a + seq![c] + b && !a.contains(c),
        split_once_spec(s, c) is None ==> !s.contains(c),
    decreases s.len(),
{
    if s.len() > 0 {
        law_split_once_roundtrip(s.drop_first(), c);
        if s[0] == c {
            assert(s =~= Seq::<char>::empty() + seq![c] + s.drop_first());
        } else {
            match split_once_spec(s.drop_first(), c) {
                Some((a, b)) => {
                    assert(s =~= seq![s[0]] + s.drop_first());
                    assert(s =~= seq![s[0]] + a + seq![c] + b);
                    assert forall|j: int| 0 <= j < (seq![s[0]] + a).len() implies (seq![s[0]] + a)[j] != c by {
                        if j > 0 {
                            assert((seq![s[0]] + a)[j] == a[j - 1]);
                        }
                    }
                },
                None => {
                    assert forall|j: int| 0 <= j < s.len() implies s[j] != c by {
                        if j > 0 {
                            assert(s[j] == s.drop_first()[j - 1]);
                        }
                    }
                },
            }
        }
    }
}

impl crate::tool::TelegramStickerTool {
    /// The Bot API URL of `method` for this configuration.
    pub fn api_url(config: &TelegramStickerConfig, method: &str) -> (r: String)
        ensures
            r@ == api_url_spec(config.api_base_url@, config.bot_token@, method@),
    {
        let base = config.api_base_url.as_str();
        let mut end = base.unicode_len();
        assert(base@.take(end as int) =~= base@);
        while end > 0 && base.get_char(end - 1) == '/'
            invariant
                end <= base@.len(),
                trim_end_slashes(base@) == trim_end_slashes(base@.take(end as int)),
            decreases end,
        {
            assert(base@.take(end as int).drop_last() =~= base@.take(end - 1));
            end = end - 1;
        }
        let trimmed = base.substring_char(0, end);
        assert(trimmed@ == trim_end_slashes(base@));
        let mut r = String::from_str(trimmed);
        r.append("/bot");
        r.append(config.bot_token.as_str());
        r.append("/");
        r.append(method);
        r
    }

    /// A reply target `chat[:thread]`: the chat and, after the first ':', the
    /// thread.
    pub fn target_parts(reply_target: &str) -> (r: (&str, Option<&str>))
        ensures
            split_once_spec(reply_target@, ':') matches Some((a, b)) ==> r.0@ == a && (r.1 matches Some(t) && t@ == b),
            split_once_spec(reply_target@, ':') is None ==> r.0@ == reply_target@ && r.1 is None,
    {
        let n = reply_target.unicode_len();
        let mut i: usize = 0;
        while i < n
            invariant
                n == reply_target@.len(),
                i <= n,
                forall|j: int| 0 <= j < i ==> reply_target@[j] != ':',
            decreases n - i,
        {
            if reply_target.get_char(i) == ':' {
                proof {
                    lemma_split_at_first(reply_target@, ':', i as int);
                }
                let chat = reply_target.substring_char(0, i);
                let thread = reply_target.substring_char(i + 1, n);
                return (chat, Some(thread));
            }
            i = i + 1;
        }
        proof {
            lemma_split_none(reply_target@, ':');
        }
        (reply_target, None)
    }
}

} // verus!
