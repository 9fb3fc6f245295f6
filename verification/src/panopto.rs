//! The video platform's launch handoff and delivery lookup: the fixed form
//! of the delivery-info request, and the reading of the returned streams.

use vstd::prelude::*;

use crate::streamer::StreamSpec;

verus! {

/// One signed form field of the launch handoff.
#[derive(Clone, Debug)]
pub struct PanoptoQueryParameter {
    pub key: String,
    pub value: String,
}

/// The launch POST's form: the signed fields, as key-value pairs.
pub fn launch_form(data_items: &Vec<PanoptoQueryParameter>) -> (r: Vec<(String, String)>)
    ensures
        r@.len() == data_items@.len(),
        forall|k: int|
            0 <= k < r@.len() ==> (#[trigger] r@[k]).0@ == data_items@[k].key@ && r@[k].1@
                == data_items@[k].value@,
{
    let mut r: Vec<(String, String)> = Vec::new();
    let mut k: usize = 0;
    while k < data_items.len()
        invariant
            0 <= k <= data_items@.len(),
            r@.len() == k,
            forall|j: int|
                0 <= j < k ==> (#[trigger] r@[j]).0@ == data_items@[j].key@ && r@[j].1@
                    == data_items@[j].value@,
        decreases data_items@.len() - k,
    {
        r.push((data_items[k].key.clone(), data_items[k].value.clone()));
        k = k + 1;
    }
    r
}

/// The fixed form of the delivery-info POST, as the platform's web player
/// sends it, around one delivery id.
pub fn make_delivery_info_post_data(delivery_id: &str) -> (r: Vec<(String, String)>)
    ensures
        r@.len() == 9,
        r@[0].0@ == "deliveryId"@ && r@[0].1@ == delivery_id@,
        r@[1].0@ == "invocationId"@ && r@[1].1@ == ""@,
        r@[2].0@ == "isLiveNotes"@ && r@[2].1@ == "false"@,
        r@[3].0@ == "refreshAuthCookie"@ && r@[3].1@ == "true"@,
        r@[4].0@ == "isActiveBroadcast"@ && r@[4].1@ == "false"@,
        r@[5].0@ == "isEditing"@ && r@[5].1@ == "false"@,
        r@[6].0@ == "isKollectiveAgentInstalled"@ && r@[6].1@ == "false"@,
        r@[7].0@ == "isEmbed"@ && r@[7].1@ == "false"@,
        r@[8].0@ == "responseType"@ && r@[8].1@ == "json"@,
{
    let mut r: Vec<(String, String)> = Vec::new();
    r.push((String::from_str("deliveryId"), String::from_str(delivery_id)));
    r.push((String::from_str("invocationId"), String::from_str("")));
    r.push((String::from_str("isLiveNotes"), String::from_str("false")));
    r.push((String::from_str("refreshAuthCookie"), String::from_str("true")));
    r.push((String::from_str("isActiveBroadcast"), String::from_str("false")));
    r.push((String::from_str("isEditing"), String::from_str("false")));
    r.push((String::from_str("isKollectiveAgentInstalled"), String::from_str("false")));
    r.push((String::from_str("isEmbed"), String::from_str("false")));
    r.push((String::from_str("responseType"), String::from_str("json")));
    r
}

/// One stream of a delivery, as the delivery-info response lists it: the
/// start offset in seconds (as decimal text) and the manifest URL.
#[derive(Clone, Debug)]
pub struct DeliveryStream {
    pub relative_start_text: String,
    pub stream_url: String,
}

/// Read the delivery's streams: a delivery without streams is refused, and
/// each listed stream keeps its manifest URL and offset.
pub fn stream_specs_from(streams: &Vec<DeliveryStream>) -> (r: Result<Vec<StreamSpec>, crate::Error>)
    ensures
        streams@.len() == 0 ==> r == Result::<Vec<StreamSpec>, crate::Error>::Err(
            "No streams available on DeliveryInfo",
        ),
        streams@.len() > 0 ==> match r {
            Ok(specs) => specs@.len() == streams@.len() && forall|k: int|
                0 <= k < specs@.len() ==> (#[trigger] specs@[k])@.stream_url_path
                    == streams@[k].stream_url@ && specs@[k]@.offset_seconds_text
                    == streams@[k].relative_start_text@,
            Err(_) => false,
        },
{
    if streams.len() == 0 {
        return Err("No streams available on DeliveryInfo");
    }
    let mut specs: Vec<StreamSpec> = Vec::new();
    let mut k: usize = 0;
    while k < streams.len()
        invariant
            0 <= k <= streams@.len(),
            specs@.len() == k,
            forall|j: int|
                0 <= j < k ==> (#[trigger] specs@[j])@.stream_url_path == streams@[j].stream_url@
                    && specs@[j]@.offset_seconds_text == streams@[j].relative_start_text@,
        decreases streams@.len() - k,
    {
        specs.push(
            StreamSpec {
                stream_url_path: streams[k].stream_url.clone(),
                offset_seconds_text: streams[k].relative_start_text.clone(),
            },
        );
        k = k + 1;
    }
    Ok(specs)
}

/// The web-lecture launch lands on the platform's viewer; the delivery to
/// download is the viewer URL's `id` query parameter.
pub fn viewer_delivery_id(viewer_url: &str) -> (r: Result<String, crate::Error>)
    ensures
        match crate::api::spec_query_param(crate::api::spec_url_query(viewer_url@), "id"@) {
            Some(v) => r is Ok && r->Ok_0@ == v,
            None => r == Result::<String, crate::Error>::Err(
                "Unable to get \"id\" query parameter of Panopto viewer",
            ),
        },
{
    let query = crate::api::url_query(viewer_url);
    match crate::api::query_param(query.as_str(), "id") {
        Some(v) => Ok(v),
        None => Err("Unable to get \"id\" query parameter of Panopto viewer"),
    }
}

} // verus!
