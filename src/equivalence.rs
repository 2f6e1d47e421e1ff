use vstd::prelude::*;

use crate::record::{embed_views, text_view, Embed, EmbedView, MessageRecord};

verus! {

broadcast use vstd::seq_lib::group_to_multiset_ensures;

/// Two lists of embeds are the same when they hold the same embeds the same
/// number of times, in any order.
pub open spec fn embeds_equivalent(a: Seq<EmbedView>, b: Seq<EmbedView>) -> bool {
    a.to_multiset() == b.to_multiset()
}

/// Two messages are duplicates of each other: same author, same text, same
/// embeds. The channel plays no part.
pub open spec fn equivalent(a: MessageRecord, b: MessageRecord) -> bool {
    a.author == b.author && a.content@ == b.content@ && embeds_equivalent(
        embed_views(a),
        embed_views(b),
    )
}

fn same_text(a: &Option<String>, b: &Option<String>) -> (r: bool)
    ensures
        r == (text_view(*a) == text_view(*b)),
{
    match (a, b) {
        (Some(x), Some(y)) => *x == *y,
        (None, None) => true,
        _ => false,
    }
}

/// Whether two embeds agree in title, description, kind and url.
pub fn compare_embeds_inner(embed1: &Embed, embed2: &Embed) -> (r: bool)
    ensures
        r == (embed1@ == embed2@),
{
    same_text(&embed1.title, &embed2.title) && same_text(&embed1.description, &embed2.description)
        && same_text(&embed1.kind, &embed2.kind) && same_text(&embed1.url, &embed2.url)
}

/// The embeds of `b` at the positions listed in `idx`.
pub open spec fn picked(idx: Seq<usize>, b: Seq<EmbedView>) -> Seq<EmbedView> {
    idx.map_values(|k: usize| b[k as int])
}

/// The first position in `unused` whose embed of `b` agrees with `e`.
fn find_unused(e: &Embed, b: &Vec<Embed>, unused: &Vec<usize>) -> (r: Option<usize>)
    requires
        forall|k: int| 0 <= k < unused@.len() ==> unused@[k] < b@.len(),
    ensures
        match r {
            Some(k) => k < unused@.len() && b@[unused@[k as int] as int]@ == e@,
            None => forall|k: int| 0 <= k < unused@.len() ==> b@[unused@[k] as int]@ != e@,
        },
{
    let mut k: usize = 0;
    while k < unused.len()
        invariant
            k <= unused@.len(),
            forall|q: int| 0 <= q < unused@.len() ==> unused@[q] < b@.len(),
            forall|q: int| 0 <= q < k ==> b@[unused@[q] as int]@ != e@,
        decreases unused@.len() - k,
    {
        if compare_embeds_inner(&b[unused[k]], e) {
            return Some(k);
        }
        k = k + 1;
    }
    None
}

/// Whether two messages carry the same embeds: each embed of the first is
/// matched with an embed of the second that agrees with it, and no embed of
/// the second serves twice.
pub fn compare_embeds(msg1: &MessageRecord, msg2: &MessageRecord) -> (r: bool)
    ensures
        r == embeds_equivalent(embed_views(*msg1), embed_views(*msg2)),
{
    let a = &msg1.embeds;
    let b = &msg2.embeds;
    let ghost av = embed_views(*msg1);
    let ghost bv = embed_views(*msg2);
    if a.len() != b.len() {
        proof {
            assert(av.to_multiset().len() != bv.to_multiset().len());
        }
        return false;
    }
    let mut unused: Vec<usize> = Vec::new();
    let mut j: usize = 0;
    while j < b.len()
        invariant
            j <= b@.len(),
            unused@.len() == j,
            forall|q: int| 0 <= q < j ==> unused@[q] == q,
        decreases b@.len() - j,
    {
        unused.push(j);
        j = j + 1;
    }
    proof {
        assert(picked(unused@, bv) =~= bv);
        assert(av.take(0) =~= Seq::<EmbedView>::empty());
        assert(av.take(0).to_multiset().add(bv.to_multiset()) =~= bv.to_multiset());
    }
    let mut i: usize = 0;
    while i < a.len()
        invariant
            i <= a@.len(),
            a@.len() == b@.len(),
            av == embed_views(*msg1),
            bv == embed_views(*msg2),
            a == &msg1.embeds,
            b == &msg2.embeds,
            unused@.len() + i == b@.len(),
            forall|q: int| 0 <= q < unused@.len() ==> unused@[q] < b@.len(),
            av.take(i as int).to_multiset().add(picked(unused@, bv).to_multiset())
                == bv.to_multiset(),
        decreases a@.len() - i,
    {
        let ghost rest = picked(unused@, bv);
        proof {
            assert(av.take(i as int + 1) =~= av.take(i as int).push(av[i as int]));
        }
        match find_unused(&a[i], b, &unused) {
            Some(k) => {
                let ghost old_unused = unused@;
                unused.remove(k);
                proof {
                    assert(picked(unused@, bv) =~= rest.remove(k as int));
                    assert(rest[k as int] == av[i as int]);
                    assert(av.take(i as int + 1).to_multiset().add(picked(unused@, bv).to_multiset())
                        =~= av.take(i as int).to_multiset().add(rest.to_multiset()));
                }
                i = i + 1;
            },
            None => {
                proof {
                    let x = av[i as int];
                    assert(!rest.contains(x));
                    assert(rest.to_multiset().count(x) == 0);
                    assert(av =~= av.take(i as int + 1) + av.skip(i as int + 1));
                    vstd::seq_lib::lemma_multiset_commutative(
                        av.take(i as int + 1),
                        av.skip(i as int + 1),
                    );
                    assert(av.to_multiset().count(x) > bv.to_multiset().count(x));
                }
                return false;
            },
        }
    }
    proof {
        assert(av.take(i as int) =~= av);
        assert(picked(unused@, bv) =~= Seq::<EmbedView>::empty());
        assert(av.to_multiset() =~= bv.to_multiset());
    }
    true
}

/// Whether two messages are duplicates for spam purposes.
pub fn compare_messages(msg1: &MessageRecord, msg2: &MessageRecord) -> (r: bool)
    ensures
        r == equivalent(*msg1, *msg2),
{
    if msg1.author != msg2.author {
        return false;
    }
    if msg1.content != msg2.content {
        return false;
    }
    compare_embeds(msg1, msg2)
}

/// The channel plays no part: two messages with the same author, text and
/// embeds are duplicates wherever they were posted.
pub proof fn lemma_channel_irrelevant(a: MessageRecord, b: MessageRecord)
    requires
        a.author == b.author,
        a.content@ == b.content@,
        embed_views(a) == embed_views(b),
    ensures
        equivalent(a, b),
{
}

/// Messages of different authors, with different text, or with different
/// numbers of embeds are never duplicates.
pub proof fn lemma_differences_matter(a: MessageRecord, b: MessageRecord)
    requires
        a.author != b.author || a.content@ != b.content@ || a.embeds@.len() != b.embeds@.len(),
    ensures
        !equivalent(a, b),
{
    if a.embeds@.len() != b.embeds@.len() {
        assert(embed_views(a).to_multiset().len() != embed_views(b).to_multiset().len());
    }
}

/// Messages whose embeds differ in one place, in any field, are not
/// duplicates.
pub proof fn lemma_embed_field_matters(a: MessageRecord, b: MessageRecord, k: int, e: EmbedView)
    requires
        0 <= k < embed_views(b).len(),
        embed_views(a) == embed_views(b).update(k, e),
        e != embed_views(b)[k],
    ensures
        !equivalent(a, b),
{
    let x = embed_views(b)[k];
    assert(embed_views(a).to_multiset() == embed_views(b).to_multiset().insert(e).remove(x));
    assert(embed_views(b).to_multiset().count(x) > 0);
    assert(embed_views(a).to_multiset().count(x) != embed_views(b).to_multiset().count(x));
}

} // verus!
