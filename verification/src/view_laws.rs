//! The views show what the values hold, field by field.
use crate::attributes::{Attribute, AttributeView, StoredAttribute};
use crate::error::StoreError;
use crate::listing::text_of;
use crate::memory::{stat_text, CgroupFiles};
use crate::object::{refuses_path, ObjectMeta, StoredObject};
use crate::page::{meta_views, step_view, PageScan, PageStep, StepView};
use crate::path::path_fault;
use crate::storage::copy_mode;
use crate::stream::{object_views, DirectoryListing};
use crate::text::views;
use crate::transfer::audit::{told, JsonAt, JsonView, RootFacts, RootRead};
use crate::transfer::namespace::{Inventory, Listed};
use crate::transfer::options::{Options, UsageError, UsageView};
use crate::transfer::record::{forms_of, ObjectRecord};
use crate::transfer::verify::record_views;
use vstd::prelude::*;

verus! {

/// An optional text is shown as it is, and a list of texts text by text.
pub proof fn texts_are_shown(text: String, list: Seq<String>, i: int)
    requires
        0 <= i < list.len(),
    ensures
        text_of(Some(text)) == Some(text@),
        text_of(None) is None,
        views(list).len() == list.len(),
        views(list)[i] == list[i]@,
{
}

/// An attribute is shown by its kind and its name.
pub proof fn attributes_are_shown(attribute: Attribute)
    ensures
        attribute is ContentDisposition <==> attribute@ is ContentDisposition,
        attribute is ContentEncoding <==> attribute@ is ContentEncoding,
        attribute is ContentLanguage <==> attribute@ is ContentLanguage,
        attribute is ContentType <==> attribute@ is ContentType,
        attribute is CacheControl <==> attribute@ is CacheControl,
        attribute is StorageClass <==> attribute@ is StorageClass,
        attribute matches Attribute::Metadata(name) ==> attribute@ == AttributeView::Metadata(
            name@,
        ),
        attribute matches Attribute::Unsupported(shown) ==> attribute@
            == AttributeView::Unsupported(shown@),
{
}

/// A stored object and what readers are told of it are shown whole.
pub proof fn objects_are_shown(object: StoredObject, meta: ObjectMeta)
    ensures
        object@.key == object.key@,
        object@.size == object.size,
        object@.etag == object.etag,
        object@.modified_ms == object.modified_ms,
        object@.attributes == object.attributes@,
        object@.content_id == object.content_id,
        meta@.location == meta.location@,
        meta@.last_modified_ms == meta.last_modified_ms,
        meta@.size == meta.size,
        meta@.e_tag == meta.e_tag@,
{
}

/// Lists are shown entry by entry, in their order.
pub proof fn lists_are_shown(
    objects: Seq<StoredObject>,
    metas: Seq<ObjectMeta>,
    records: Seq<ObjectRecord>,
    stored: Seq<StoredAttribute>,
    i: int,
)
    ensures
        object_views(objects).len() == objects.len(),
        0 <= i < objects.len() ==> object_views(objects)[i] == objects[i]@,
        meta_views(metas).len() == metas.len(),
        0 <= i < metas.len() ==> meta_views(metas)[i] == metas[i]@,
        record_views(records).len() == records.len(),
        0 <= i < records.len() ==> record_views(records)[i] == records[i]@,
        forms_of(stored).len() == stored.len(),
        0 <= i < stored.len() ==> forms_of(stored)[i].kind == stored[i].kind@ && forms_of(
            stored,
        )[i].name == text_of(stored[i].name) && forms_of(stored)[i].value == stored[i].value@,
{
}

/// A page and a directory are shown whole.
pub proof fn pages_are_shown(page: PageScan, directory: DirectoryListing)
    ensures
        page@.prefix == page.prefix@,
        page@.delimiter == text_of(page.delimiter),
        page@.limit == page.limit,
        page@.after == text_of(page.after),
        page@.common_prefixes == views(page.common_prefixes@),
        page@.objects == meta_views(page.objects@),
        page@.count() == page.common_prefixes@.len() + page.objects@.len(),
        directory@.prefix == directory.prefix@,
        directory@.page_token == text_of(directory.page_token),
        directory@.done == directory.done,
        directory@.common_prefixes == views(directory.common_prefixes@),
        directory@.objects == meta_views(directory.objects@),
{
}

/// A step of a page is shown by what it asks for.
pub proof fn page_steps_are_shown(step: Result<PageStep, StoreError>)
    ensures
        step matches Ok(PageStep::Continue) ==> step_view(step) == Some(StepView::Continue),
        step matches Ok(PageStep::Seek { from, upper }) ==> step_view(step) == Some(
            StepView::Seek { from: from@, upper: text_of(upper) },
        ),
        step matches Ok(PageStep::Done { page_token }) ==> step_view(step) == Some(
            StepView::Done { page_token: text_of(page_token) },
        ),
        step matches Err(StoreError::InvalidPath { path, reason }) ==> step_view(step) == Some(
            StepView::Fail { path: path@, words: reason@ },
        ),
        step matches Err(error) ==> !(error is InvalidPath) ==> step_view(step) is None,
{
}

/// A record is shown whole, its SHA-256 and its attributes included, whatever its
/// size.
pub proof fn records_are_shown(record: ObjectRecord)
    ensures
        record@.key == record.key@,
        record@.size == record.size,
        record@.sha256 == record.sha256@,
        record@.attributes == forms_of(record.attributes@),
        record@.source_etag == text_of(record.source_etag),
        record@.source_version == text_of(record.source_version),
        record@.source_modified_ms == record.source_modified_ms,
{
}

/// A listed object is shown whole, and a listing entry by entry.
pub proof fn listings_are_shown(listed: Listed, inventory: Inventory, i: int)
    ensures
        listed@.key == listed.key@,
        listed@.size == listed.size,
        listed@.e_tag == text_of(listed.e_tag),
        listed@.version == text_of(listed.version),
        listed@.modified_s == listed.modified_s,
        listed@.modified_ns == listed.modified_ns,
        inventory@.len() == inventory.entries@.len(),
        0 <= i < inventory.entries@.len() ==> inventory@[i] == inventory.entries@[i]@,
{
}

/// The options of a transfer and the refusal of a command line are shown whole.
pub proof fn options_are_shown(options: Options, error: UsageError)
    ensures
        options@.mode == options.mode,
        options@.source == options.source@,
        options@.destination == options.destination@,
        options@.manifest == options.manifest@,
        options@.resume == options.resume,
        error matches UsageError::UnknownCommand { command } ==> error@
            == UsageView::UnknownCommand(command@),
        error matches UsageError::MissingValue { option } ==> error@ == UsageView::MissingValue(
            option@,
        ),
        error matches UsageError::UnknownOption { argument } ==> error@ == UsageView::UnknownOption(
            argument@,
        ),
        error is NotQuiesced <==> error@ is NotQuiesced,
        error is ResumeOnVerify <==> error@ is ResumeOnVerify,
        error matches UsageError::MissingOption { option } ==> error@ == UsageView::MissingOption(
            option@,
        ),
        error is AuditUsage <==> error@ is AuditUsage,
{
}

/// What is read of a node record is shown whole.
pub proof fn node_records_are_shown(value: JsonAt, facts: RootFacts, root: RootRead)
    ensures
        value is NotJson <==> value@ is NotJson,
        value is Missing <==> value@ is Missing,
        value is Null <==> value@ is Null,
        value matches JsonAt::Text(text) ==> value@ == JsonView::Text(text@),
        value matches JsonAt::Unsigned(number) ==> value@ == JsonView::Unsigned(number),
        value matches JsonAt::Array(json) ==> value@ == JsonView::Array(json@),
        value matches JsonAt::Other(json) ==> value@ == JsonView::Other(json@),
        facts@.node == facts.node@,
        facts@.expires_ms == facts.expires_ms@,
        facts@.log == facts.log@,
        facts@.epoch == facts.epoch@,
        facts@.tiered == facts.tiered@,
        facts@.ensemble == facts.ensemble@,
        facts@.state == facts.state@,
        root@.state == root.state@,
        root@.node == told(root.node),
        root@.expires_ms == told(root.expires_ms),
        root@.epoch == told(root.epoch),
        root@.tiered == told(root.tiered),
        told(None) is None,
        told(Some(value)) == Some(value@),
{
}

/// The statistics of a cgroup are the text that was read, or none.
pub proof fn statistics_are_shown(files: CgroupFiles)
    ensures
        files.stat matches Some(text) ==> stat_text(files) == text@,
        files.stat is None ==> stat_text(files).len() == 0,
{
}

/// A path is refused by itself and by the words of its fault.
pub proof fn refused_paths_are_named(error: StoreError, path: Seq<char>)
    ensures
        refuses_path(error, path) <==> (error matches StoreError::InvalidPath {
            path: shown,
            reason,
        } && shown@ == path && reason@ == path_fault(path)),
{
}

/// A copy that may not replace an object is a create, and any other an overwrite.
pub proof fn copies_create_or_overwrite(create: bool)
    ensures
        create ==> copy_mode(create) is Create,
        !create ==> copy_mode(create) is Overwrite,
{
}

} // verus!
