//! Contact links: `<mailto:...>` and `<tel:...>` spans produced by the
//! preprocessing stage are turned into anchor nodes.
use crate::node::Node;
use crate::node::NodeValue;
use crate::parser::InlineRuleName;
use crate::parser::MarkdownIt;
use crate::text::is_digit_char;
use crate::text::lemma_find_char_props;
use crate::text::push_char;
use crate::text::spec_find_char;
use crate::text::check_match_at;
use crate::text::find_char_from;
use crate::text::matches_at;
use vstd::prelude::*;
use vstd::string::*;

verus! {

/// Which kind of contact a node links to.
pub enum ContactInfoType {
    Email,
    Phone,
}

/// AST node for a contact link.
pub struct ContactInfo {
    pub content: String,
    pub prefix: String,
    pub info_type: ContactInfoType,
}

/// A phone number cleaned for use in a link target: only ASCII digits and
/// `+` are kept.
pub open spec fn spec_phone_clean(s: Seq<char>) -> Seq<char>
    decreases s.len(),
{
    if s.len() == 0 {
        Seq::empty()
    } else if is_digit_char(s[0]) || s[0] == '+' {
        seq![s[0]] + spec_phone_clean(s.drop_first())
    } else {
        spec_phone_clean(s.drop_first())
    }
}

/// Keeps only ASCII digits and `+` from `s`.
pub fn phone_clean(s: &str) -> (r: String)
    ensures
        r@ == spec_phone_clean(s@),
{
    let n = s.unicode_len();
    let mut out = String::new();
    let mut i: usize = 0;
    proof {
        assert(s@.skip(0) =~= s@);
        assert(out@ + spec_phone_clean(s@) =~= spec_phone_clean(s@));
    }
    while i < n
        invariant
            i <= n,
            n == s@.len(),
            spec_phone_clean(s@) == out@ + spec_phone_clean(s@.skip(i as int)),
        decreases n - i,
    {
        let c = s.get_char(i);
        proof {
            assert(s@.skip(i as int)[0] == s@[i as int]);
            assert(s@.skip(i as int).drop_first() =~= s@.skip(i + 1));
        }
        if ('0' <= c && c <= '9') || c == '+' {
            push_char(&mut out, c);
        }
        proof {
            assert(out@ + spec_phone_clean(s@.skip(i + 1)) =~= spec_phone_clean(s@));
        }
        i = i + 1;
    }
    proof {
        assert(s@.skip(n as int) =~= Seq::<char>::empty());
        assert(out@ =~= spec_phone_clean(s@));
    }
    out
}

/// What a contact scan at `pos` yields: whether the span is an email (else
/// a phone number) and the position of the closing `>`, if the span opens
/// with a known prefix and closes before `pos_max`.
pub open spec fn spec_contact_scan(s: Seq<char>, pos: int, pos_max: int) -> Option<(bool, int)> {
    if pos_max <= s.len() && matches_at(s, "<mailto:"@, pos) && pos + 8 <= pos_max {
        match spec_find_char(s, '>', pos, pos_max) {
            Some(e) => Some((true, e)),
            None => None,
        }
    } else if pos_max <= s.len() && matches_at(s, "<tel:"@, pos) && pos + 5 <= pos_max {
        match spec_find_char(s, '>', pos, pos_max) {
            Some(e) => Some((false, e)),
            None => None,
        }
    } else {
        None
    }
}

/// Matches a whole `<mailto:...>` or `<tel:...>` span at the current
/// position; the node's content is the text between prefix and `>`.
pub fn contact_run(src: &str, pos: usize, pos_max: usize) -> (r: Option<(Node, usize)>)
    requires
        pos < pos_max <= src@.len(),
    ensures
        match spec_contact_scan(src@, pos as int, pos_max as int) {
            Some((is_email, e)) => r matches Some((n, len)) && {
                &&& len == e + 1 - pos
                &&& 1 <= len <= pos_max - pos
                &&& n.children@.len() == 0
                &&& n.attrs@.len() == 0
                &&& n.value matches NodeValue::ContactInfo(c) && (if is_email {
                    &&& c.info_type is Email
                    &&& c.prefix@ == "mailto:"@
                    &&& c.content@ == src@.subrange(pos + 8, e)
                } else {
                    &&& c.info_type is Phone
                    &&& c.prefix@ == "tel:"@
                    &&& c.content@ == src@.subrange(pos + 5, e)
                })
            },
            None => r is None,
        },
{
    proof {
        reveal_strlit("<mailto:");
        reveal_strlit("<tel:");
        reveal_strlit("mailto:");
        reveal_strlit("tel:");
        assert("<mailto:"@.len() == 8);
        assert("<tel:"@.len() == 5);
    }
    let is_mail = pos_max - pos >= 8 && check_match_at(src, "<mailto:", pos);
    let is_tel = !is_mail && pos_max - pos >= 5 && check_match_at(src, "<tel:", pos);
    if !is_mail && !is_tel {
        proof {
            assert(spec_contact_scan(src@, pos as int, pos_max as int) is None);
        }
        return None;
    }
    let plen: usize = if is_mail {
        8
    } else {
        5
    };
    let found = find_char_from(src, '>', pos, pos_max);
    proof {
        lemma_find_char_props(src@, '>', pos as int, pos_max as int);
    }
    match found {
        None => None,
        Some(e) => {
            proof {
                if is_mail {
                    assert(forall|j: int| 0 <= j < 8 ==> "<mailto:"@[j] != '>');
                    assert(forall|k: int|
                        pos <= k < pos + 8 ==> src@[k] == "<mailto:"@[k - pos]);
                } else {
                    assert(forall|j: int| 0 <= j < 5 ==> "<tel:"@[j] != '>');
                    assert(forall|k: int| pos <= k < pos + 5 ==> src@[k] == "<tel:"@[k - pos]);
                }
                assert(e >= pos + plen);
            }
            let content = src.substring_char(pos + plen, e).to_owned();
            let prefix = if is_mail {
                String::from_str("mailto:")
            } else {
                String::from_str("tel:")
            };
            let info_type = if is_mail {
                ContactInfoType::Email
            } else {
                ContactInfoType::Phone
            };
            let node = Node::new(
                NodeValue::ContactInfo(ContactInfo { content, prefix, info_type }),
            );
            Some((node, e + 1 - pos))
        },
    }
}

/// Registers the contact-link inline rule.
pub fn add(md: &mut MarkdownIt)
    ensures
        final(md).inline_rules@ == old(md).inline_rules@.push(InlineRuleName::ContactInfo),
        final(md).block_rules@ == old(md).block_rules@,
        final(md).core_rules@ == old(md).core_rules@,
        final(md).ext == old(md).ext,
{
    md.add_inline_rule(InlineRuleName::ContactInfo);
}

} // verus!
