//! What a run of uploads leaves in the index.
//!
//! A run is a sequence of (name, content) pairs, oldest first: the uploads
//! whose durable write worked, in the order in which they reached the
//! index. The statements here hold for every run, and so for every order
//! in which concurrent requests happen to reach the index.

use vstd::prelude::*;

use crate::handler::download_reply;
use crate::handler::first_step;
use crate::handler::lemma_download_route;
use crate::handler::missing_fields_reply;
use crate::handler::upload_reply;
use crate::handler::upload_step;
use crate::handler::index_after;
use crate::handler::names_after;
use crate::handler::Method;
use crate::handler::StepView;
use crate::pairs::keys_of;
use crate::pairs::last_value;
use crate::pairs::lemma_last_value_some;
use crate::path::final_component;
use crate::path::is_leaf_name;
use crate::path::lemma_final_component_is_leaf;
use crate::path::lemma_final_component_of_join;
use crate::path::lemma_leaf_name_is_fixed;
use crate::path::segments;
use crate::reply::content_reply;
use crate::reply::Status;
use crate::store::put_name;

verus! {

/// The index after the uploads `puts` reached `index`.
pub open spec fn index_after_puts(
    index: Map<Seq<char>, Option<Seq<char>>>,
    puts: Seq<(Seq<char>, Seq<char>)>,
) -> Map<Seq<char>, Option<Seq<char>>>
    decreases puts.len(),
{
    if puts.len() == 0 {
        index
    } else {
        index_after_puts(index, puts.drop_last()).insert(puts.last().0, Some(puts.last().1))
    }
}

/// The listing order after the uploads `puts` reached an index that listed
/// `names`.
pub open spec fn names_after_puts(names: Seq<Seq<char>>, puts: Seq<(Seq<char>, Seq<char>)>) -> Seq<
    Seq<char>,
>
    decreases puts.len(),
{
    if puts.len() == 0 {
        names
    } else {
        put_name(names_after_puts(names, puts.drop_last()), puts.last().0)
    }
}

/// An upload that was tried: its name and content, and whether its durable
/// write worked.
pub struct Attempt {
    pub name: Seq<char>,
    pub content: Seq<char>,
    pub written: bool,
}

/// The attempts of `attempts` whose durable write worked, in order.
pub open spec fn successful(attempts: Seq<Attempt>) -> Seq<(Seq<char>, Seq<char>)>
    decreases attempts.len(),
{
    if attempts.len() == 0 {
        Seq::empty()
    } else if attempts.last().written {
        successful(attempts.drop_last()).push((attempts.last().name, attempts.last().content))
    } else {
        successful(attempts.drop_last())
    }
}

/// The index after each of `attempts` was completed against `index`.
pub open spec fn index_after_attempts(
    index: Map<Seq<char>, Option<Seq<char>>>,
    attempts: Seq<Attempt>,
) -> Map<Seq<char>, Option<Seq<char>>>
    decreases attempts.len(),
{
    if attempts.len() == 0 {
        index
    } else {
        index_after(
            index_after_attempts(index, attempts.drop_last()),
            attempts.last().name,
            attempts.last().content,
            attempts.last().written,
        )
    }
}

/// The listing order after each of `attempts` was completed against an
/// index that listed `names`.
pub open spec fn names_after_attempts(names: Seq<Seq<char>>, attempts: Seq<Attempt>) -> Seq<
    Seq<char>,
>
    decreases attempts.len(),
{
    if attempts.len() == 0 {
        names
    } else {
        names_after(
            names_after_attempts(names, attempts.drop_last()),
            attempts.last().name,
            attempts.last().written,
        )
    }
}

/// Whether every text in `index` is the text of the file of that name in
/// the directory `disk`, which maps each file name to the text in the file.
pub open spec fn mirrors(
    index: Map<Seq<char>, Option<Seq<char>>>,
    disk: Map<Seq<char>, Seq<char>>,
) -> bool {
    forall|name: Seq<char>|
        #[trigger] index.contains_key(name) && index[name] is Some ==> disk.contains_key(name)
            && disk[name] == index[name]->0
}

/// How a write of `content` to the file `name` may change a flat directory
/// from `before` to `after`. No other file is touched. A write that worked
/// left `content` in the file; of a write that failed nothing is known but
/// that.
pub open spec fn write_leaves(
    before: Map<Seq<char>, Seq<char>>,
    after: Map<Seq<char>, Seq<char>>,
    name: Seq<char>,
    content: Seq<char>,
    written: bool,
) -> bool {
    &&& forall|other: Seq<char>|
        other != name ==> (#[trigger] after.contains_key(other) == before.contains_key(other)
            && after[other] == before[other])
    &&& written ==> after.contains_key(name) && after[name] == content
}

/// Write before index: an index that mirrors the directory still does
/// after an upload is completed. Nothing becomes visible that is not on
/// disk. After a write that failed the index is as it was, and the entry of
/// that name, if there was one, is the only one that the file may have
/// parted from.
pub proof fn lemma_index_mirrors_disk(
    index: Map<Seq<char>, Option<Seq<char>>>,
    before: Map<Seq<char>, Seq<char>>,
    after: Map<Seq<char>, Seq<char>>,
    name: Seq<char>,
    content: Seq<char>,
    written: bool,
)
    requires
        mirrors(index, before),
        write_leaves(before, after, name, content, written),
    ensures
        written ==> mirrors(index_after(index, name, content, written), after),
        !written ==> mirrors(index_after(index, name, content, written).remove(name), after),
{
    let now = index_after(index, name, content, written);
    if written {
        assert forall|key: Seq<char>| #[trigger]
            now.contains_key(key) && now[key] is Some implies after.contains_key(key) && after[key]
            == now[key]->0 by {
            if key != name {
                assert(index.contains_key(key));
                assert(after.contains_key(key) == before.contains_key(key));
            }
        }
    } else {
        let rest = now.remove(name);
        assert forall|key: Seq<char>| #[trigger]
            rest.contains_key(key) && rest[key] is Some implies after.contains_key(key)
            && after[key] == rest[key]->0 by {
            assert(index.contains_key(key));
            assert(after.contains_key(key) == before.contains_key(key));
        }
    }
}

/// Last write wins: after any run of uploads, a name that was uploaded
/// holds the content of its most recent upload, and a name that was not
/// holds what it held before.
pub proof fn lemma_last_write_wins(
    index: Map<Seq<char>, Option<Seq<char>>>,
    puts: Seq<(Seq<char>, Seq<char>)>,
    name: Seq<char>,
)
    ensures
        index_after_puts(index, puts).get(name) == match last_value(puts, name) {
            Some(content) => Some(Some(content)),
            None => index.get(name),
        },
    decreases puts.len(),
{
    if puts.len() != 0 {
        lemma_last_write_wins(index, puts.drop_last(), name);
    }
}

/// Round trip: right after `content` was put under `name`, the index holds
/// exactly `content` under `name`.
pub proof fn lemma_put_then_get(
    index: Map<Seq<char>, Option<Seq<char>>>,
    name: Seq<char>,
    content: Seq<char>,
)
    ensures
        index.insert(name, Some(content)).get(name) == Some(Some(content)),
{
}

/// An upload is refused exactly where a field is missing from the form. A
/// field that is given without a value is not missing.
pub proof fn lemma_refused_exactly_where_a_field_is_missing(pairs: Seq<(Seq<char>, Seq<char>)>)
    ensures
        (upload_step(pairs) matches StepView::Reply(reply) && reply.status == Status::BadRequest)
            <==> !(keys_of(pairs).contains("name"@) && keys_of(pairs).contains("content"@)),
        !(keys_of(pairs).contains("name"@) && keys_of(pairs).contains("content"@))
            ==> upload_step(pairs) == StepView::Reply(missing_fields_reply()),
{
    lemma_last_value_some(pairs, "name"@);
    lemma_last_value_some(pairs, "content"@);
}

/// With both fields given, a write that fails is a server error, whatever
/// made it fail: the write that was asked for and did not work, and the
/// write that could not be asked for because the name names no file.
/// Neither answer is a confirmation or a refusal, and neither changes the
/// index.
pub proof fn lemma_failed_write_is_a_server_error(
    index: Map<Seq<char>, Option<Seq<char>>>,
    pairs: Seq<(Seq<char>, Seq<char>)>,
)
    requires
        keys_of(pairs).contains("name"@),
        keys_of(pairs).contains("content"@),
    ensures
        match upload_step(pairs) {
            StepView::Persist { name, content } => {
                &&& upload_reply(name, false).status == Status::ServerError
                &&& index_after(index, name, content, false) == index
            },
            StepView::Reply(reply) => reply.status == Status::ServerError,
            StepView::ReadBody => false,
        },
{
    lemma_last_value_some(pairs, "name"@);
    lemma_last_value_some(pairs, "content"@);
}

/// An upload that is accepted is stored under a plain name: no directory
/// part of the name that the client gave reaches the disk or the index.
pub proof fn lemma_upload_names_a_leaf(pairs: Seq<(Seq<char>, Seq<char>)>)
    ensures
        upload_step(pairs) matches StepView::Persist { name, .. } ==> is_leaf_name(name),
{
    if let Some(name) = last_value(pairs, "name"@) {
        lemma_final_component_is_leaf(name);
    }
}

/// Round trip through the request rules: a name under which an upload is
/// accepted has a final component, and once `content` is stored under that
/// component, a download of the name as the client gave it sends exactly
/// `content`.
pub proof fn lemma_upload_then_download(
    index: Map<Seq<char>, Option<Seq<char>>>,
    name: Seq<char>,
    content: Seq<char>,
)
    ensures
        final_component(name) matches Some(leaf) ==> download_reply(
            index_after(index, leaf, content, true),
            name,
        ) == content_reply(content),
{
}

/// The same round trip over the wire: once `content` is stored under the
/// final component of `name`, a `GET` of `/file/` followed by `name` is
/// answered with exactly `content`.
pub proof fn lemma_upload_then_request(
    index: Map<Seq<char>, Option<Seq<char>>>,
    names: Seq<Seq<char>>,
    name: Seq<char>,
    content: Seq<char>,
)
    ensures
        final_component(name) matches Some(leaf) ==> first_step(
            index_after(index, leaf, content, true),
            names_after(names, leaf, true),
            Method::Get,
            "/file/"@ + name,
        ) == StepView::Reply(content_reply(content)),
{
    if final_component(name) is Some {
        lemma_download_route(name);
    }
}

/// A download over the wire answers for the whole of what follows
/// `/file/`: the path is cut to its final component only when it is looked
/// up.
pub proof fn lemma_request_is_download(
    index: Map<Seq<char>, Option<Seq<char>>>,
    names: Seq<Seq<char>>,
    name: Seq<char>,
)
    requires
        segments(name).len() > 0,
    ensures
        first_step(index, names, Method::Get, "/file/"@ + name) == StepView::Reply(
            download_reply(index, name),
        ),
{
    lemma_download_route(name);
}

/// Path traversal ends at the leaf: whatever directories a download
/// names in front of a plain name, the answer is the one for that name
/// alone, through [`download_reply`] and over the wire.
pub proof fn lemma_traversal_looks_up_the_leaf(
    index: Map<Seq<char>, Option<Seq<char>>>,
    names: Seq<Seq<char>>,
    dir: Seq<char>,
    leaf: Seq<char>,
)
    requires
        is_leaf_name(leaf),
    ensures
        download_reply(index, dir + seq!['/'] + leaf) == download_reply(index, leaf),
        first_step(index, names, Method::Get, "/file/"@ + (dir + seq!['/'] + leaf))
            == StepView::Reply(download_reply(index, leaf)),
{
    lemma_final_component_of_join(dir, leaf);
    lemma_leaf_name_is_fixed(leaf);
    lemma_download_route(dir + seq!['/'] + leaf);
}

/// The same for an upload: whatever directories the client names in front
/// of a plain name, the file is stored under that name alone.
pub proof fn lemma_upload_cuts_the_name(
    pairs: Seq<(Seq<char>, Seq<char>)>,
    dir: Seq<char>,
    leaf: Seq<char>,
    content: Seq<char>,
)
    requires
        is_leaf_name(leaf),
        last_value(pairs, "name"@) == Some(dir + seq!['/'] + leaf),
        last_value(pairs, "content"@) == Some(content),
    ensures
        upload_step(pairs) == (StepView::Persist { name: leaf, content }),
{
    lemma_final_component_of_join(dir, leaf);
}

/// Idempotence: putting the same content under the same name a second time
/// changes neither the index nor the listing.
pub proof fn lemma_put_twice(
    index: Map<Seq<char>, Option<Seq<char>>>,
    names: Seq<Seq<char>>,
    name: Seq<char>,
    content: Seq<char>,
)
    ensures
        index.insert(name, Some(content)).insert(name, Some(content)) == index.insert(
            name,
            Some(content),
        ),
        put_name(put_name(names, name), name) == put_name(names, name),
{
    if !names.contains(name) {
        assert(names.push(name)[names.len() as int] == name);
    }
}

/// A put keeps the listed names distinct, and lists the new name beside
/// the old ones.
pub proof fn lemma_put_name(names: Seq<Seq<char>>, name: Seq<char>)
    requires
        names.no_duplicates(),
    ensures
        put_name(names, name).no_duplicates(),
        put_name(names, name).to_set() == names.to_set().insert(name),
{
    if !names.contains(name) {
        let after = names.push(name);
        assert forall|key: Seq<char>| after.to_set().contains(key) <==> names.to_set().insert(
            name,
        ).contains(key) by {
            if names.contains(key) {
                let i = choose|i: int| 0 <= i < names.len() && names[i] == key;
                assert(after[i] == key);
            }
            if key == name {
                assert(after[names.len() as int] == key);
            }
        }
    }
}

/// The listing counts names, not uploads: after any run of uploads the
/// listing holds each name once, and its names are those listed before
/// together with those uploaded, in whatever order the uploads came.
pub proof fn lemma_listing_holds_each_name_once(
    names: Seq<Seq<char>>,
    puts: Seq<(Seq<char>, Seq<char>)>,
)
    requires
        names.no_duplicates(),
    ensures
        names_after_puts(names, puts).no_duplicates(),
        names_after_puts(names, puts).to_set() == names.to_set().union(keys_of(puts)),
    decreases puts.len(),
{
    if puts.len() != 0 {
        let front = puts.drop_last();
        lemma_listing_holds_each_name_once(names, front);
        lemma_put_name(names_after_puts(names, front), puts.last().0);
        assert forall|key: Seq<char>| keys_of(puts).contains(key) <==> keys_of(front).contains(key)
            || key == puts.last().0 by {
            if keys_of(front).contains(key) {
                let i = choose|i: int| 0 <= i < front.len() && #[trigger] front[i].0 == key;
                assert(puts[i].0 == key);
            }
            if key == puts.last().0 {
                assert(puts[puts.len() - 1].0 == key);
            }
            if keys_of(puts).contains(key) {
                let i = choose|i: int| 0 <= i < puts.len() && #[trigger] puts[i].0 == key;
                if i < front.len() {
                    assert(front[i].0 == key);
                }
            }
        }
    }
}

/// Starting from an empty index, the number of listed files is the number
/// of distinct names uploaded.
pub proof fn lemma_listing_count(puts: Seq<(Seq<char>, Seq<char>)>)
    ensures
        keys_of(puts).finite(),
        names_after_puts(Seq::empty(), puts).len() == keys_of(puts).len(),
{
    let after = names_after_puts(Seq::empty(), puts);
    lemma_listing_holds_each_name_once(Seq::empty(), puts);
    assert(Seq::<Seq<char>>::empty().to_set().union(keys_of(puts)) =~= keys_of(puts));
    after.unique_seq_to_set();
}

/// The order of the uploads does not show in the count: two runs that
/// upload the same names, however often and however interleaved, leave
/// listings of the same length.
pub proof fn lemma_listing_count_ignores_order(
    first: Seq<(Seq<char>, Seq<char>)>,
    second: Seq<(Seq<char>, Seq<char>)>,
)
    requires
        keys_of(first) == keys_of(second),
    ensures
        names_after_puts(Seq::empty(), first).len() == names_after_puts(Seq::empty(), second).len(),
{
    lemma_listing_count(first);
    lemma_listing_count(second);
}

/// The index and the listing go together: after any run of uploads the
/// index holds the names it held before and those uploaded.
pub proof fn lemma_index_holds_uploaded_names(
    index: Map<Seq<char>, Option<Seq<char>>>,
    puts: Seq<(Seq<char>, Seq<char>)>,
)
    ensures
        index_after_puts(index, puts).dom() == index.dom().union(keys_of(puts)),
{
    assert forall|name: Seq<char>|
        index_after_puts(index, puts).dom().contains(name) <==> index.dom().union(
            keys_of(puts),
        ).contains(name) by {
        lemma_last_write_wins(index, puts, name);
        lemma_last_value_some(puts, name);
    }
}

/// An upload whose write failed leaves no trace: completing a run of
/// attempts leaves the index and the listing that the successful ones
/// alone would leave.
pub proof fn lemma_failed_writes_leave_no_trace(
    index: Map<Seq<char>, Option<Seq<char>>>,
    names: Seq<Seq<char>>,
    attempts: Seq<Attempt>,
)
    ensures
        index_after_attempts(index, attempts) == index_after_puts(index, successful(attempts)),
        names_after_attempts(names, attempts) == names_after_puts(names, successful(attempts)),
    decreases attempts.len(),
{
    if attempts.len() != 0 {
        let front = attempts.drop_last();
        lemma_failed_writes_leave_no_trace(index, names, front);
        if attempts.last().written {
            assert(successful(attempts).drop_last() =~= successful(front));
        }
    }
}

} // verus!
