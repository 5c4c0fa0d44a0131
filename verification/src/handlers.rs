use vstd::prelude::*;

use crate::stats::Summary;
use crate::text::{decimal, format_u64};

verus! {

/// The one chat command the process answers: show the counters' summary.
#[derive(Clone, Copy, Debug, PartialEq, Eq, Structural)]
pub enum Command {
    Stat,
}

/// The statistics pseudo-answer offered with every inline reply: how many
/// phrases the asking actor has bought so far, with a groan appended once
/// they pass twenty.
pub open spec fn sell_stat_spec(count: nat) -> Seq<char> {
    if count > 20 {
        "我已经卖了 "@ + decimal(count) + " 句菜"@ + "，我 zc"@
    } else {
        "我已经卖了 "@ + decimal(count) + " 句菜"@
    }
}

/// Writes the statistics pseudo-answer for one actor's count.
pub fn sell_stat_text(count: u64) -> (r: String)
    ensures
        r@ == sell_stat_spec(count as nat),
{
    let mut s = "我已经卖了 ".to_owned();
    let num = format_u64(count);
    s.append(num.as_str());
    s.append(" 句菜");
    if count > 20 {
        s.append("，我 zc");
    }
    s
}

/// One line of the summary reply: an item and how often it was bought.
pub open spec fn sentence_line(k: Seq<char>, c: nat) -> Seq<char> {
    k + "："@ + decimal(c) + " 次"@
}

/// The top items, one line each, joined with newlines.
pub open spec fn top_lines(v: Seq<(String, u64)>) -> Seq<char>
    decreases v.len(),
{
    if v.len() == 0 {
        Seq::empty()
    } else if v.len() == 1 {
        sentence_line(v[0].0@, v[0].1 as nat)
    } else {
        sentence_line(v[0].0@, v[0].1 as nat) + "\n"@ + top_lines(v.drop_first())
    }
}

/// The whole summary reply.
pub open spec fn summary_text_spec(s: Summary) -> Seq<char> {
    "总共已经有 "@ + decimal(s.users as nat) + " 名迟化人卖了 "@ + decimal(s.total as nat)
        + " 句菜\n其中最迟的人卖了 "@ + decimal(s.top_user_count as nat)
        + " 句\n\n被卖得最多次的句子：\n"@ + top_lines(s.top_sentences@)
}

fn line_text(k: &str, c: u64) -> (r: String)
    ensures
        r@ == sentence_line(k@, c as nat),
{
    let mut s = k.to_owned();
    s.append("：");
    let num = format_u64(c);
    s.append(num.as_str());
    s.append(" 次");
    s
}

proof fn lemma_top_lines_push(v: Seq<(String, u64)>, e: (String, u64))
    ensures
        top_lines(v.push(e)) == if v.len() == 0 {
            sentence_line(e.0@, e.1 as nat)
        } else {
            top_lines(v) + "\n"@ + sentence_line(e.0@, e.1 as nat)
        },
    decreases v.len(),
{
    let vp = v.push(e);
    assert(vp[0] == if v.len() == 0 {
        e
    } else {
        v[0]
    });
    if v.len() == 0 {
    } else {
        assert(vp.drop_first() =~= v.drop_first().push(e));
        lemma_top_lines_push(v.drop_first(), e);
        if v.len() == 1 {
        } else {
            assert(sentence_line(v[0].0@, v[0].1 as nat) + "\n"@ + (top_lines(v.drop_first())
                + "\n"@ + sentence_line(e.0@, e.1 as nat)) =~= (sentence_line(
                v[0].0@,
                v[0].1 as nat,
            ) + "\n"@ + top_lines(v.drop_first())) + "\n"@ + sentence_line(e.0@, e.1 as nat));
        }
    }
}

/// Writes the summary reply shown for the statistics command.
pub fn summary_text(s: &Summary) -> (r: String)
    ensures
        r@ == summary_text_spec(*s),
{
    let n = s.top_sentences.len();
    let mut lines = String::new();
    let mut i: usize = 0;
    proof {
        assert(s.top_sentences@.take(0) =~= Seq::<(String, u64)>::empty());
    }
    while i < n
        invariant
            0 <= i <= n,
            n == s.top_sentences@.len(),
            lines@ == top_lines(s.top_sentences@.take(i as int)),
        decreases n - i,
    {
        let line = line_text(s.top_sentences[i].0.as_str(), s.top_sentences[i].1);
        if i > 0 {
            lines.append("\n");
        }
        lines.append(line.as_str());
        proof {
            let pre = s.top_sentences@.take(i as int);
            lemma_top_lines_push(pre, s.top_sentences@[i as int]);
            assert(pre.push(s.top_sentences@[i as int]) =~= s.top_sentences@.take(i as int + 1));
        }
        i = i + 1;
    }
    proof {
        assert(s.top_sentences@.take(n as int) =~= s.top_sentences@);
    }
    let mut r = "总共已经有 ".to_owned();
    let users = format_u64(s.users);
    r.append(users.as_str());
    r.append(" 名迟化人卖了 ");
    let total = format_u64(s.total);
    r.append(total.as_str());
    r.append(" 句菜\n其中最迟的人卖了 ");
    let top_user = format_u64(s.top_user_count);
    r.append(top_user.as_str());
    r.append(" 句\n\n被卖得最多次的句子：\n");
    r.append(lines.as_str());
    r
}

} // verus!
