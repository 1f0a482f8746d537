//! What a search for a picture does, and what is left of it in the cache.

use image::ImageError;
use vstd::prelude::*;

use crate::cache::CachePath;
use crate::client::Client;
use crate::decoder::safe_to_read;
use crate::fetch::{is_step, Fetch, FetchAction, FetchEvent};
use crate::picture::{decode_image, jpeg_pixels, jpeg_size, to_picture, DecodeError, Picture};

verus! {

/// Whether the decoder can be given the file, and reads it.
pub open spec fn is_picture(file: Seq<u8>) -> bool {
    &&& safe_to_read(file)
    &&& jpeg_size(file) is Some
    &&& jpeg_pixels(file, usize::BITS as int) is Some
}

/// Whether `picture` is what the decoder reads from the file: its size, and all its pixels.
pub open spec fn is_picture_of(picture: Picture, file: Seq<u8>) -> bool {
    &&& jpeg_size(file) == Some((picture.width, picture.height))
    &&& jpeg_pixels(file, usize::BITS as int) == Some(picture.pixels@)
}

/// A file is read exactly where it is a picture, and as that picture. Otherwise the error
/// says how far the decoder came.
pub proof fn law_decode_image(data: &[u8], result: Result<Picture, DecodeError>)
    requires
        call_ensures(decode_image, (data,), result),
    ensures
        call_requires(decode_image, (data,)),
        is_picture(data@) <==> result is Ok,
        result matches Ok(picture) ==> is_picture_of(picture, data@) && picture.pixels@.len()
            == picture.width * picture.height,
        result == Err::<Picture, DecodeError>(DecodeError::Unsafe) <==> !safe_to_read(data@),
        result == Err::<Picture, DecodeError>(DecodeError::Header) <==> safe_to_read(data@)
            && jpeg_size(data@) is None,
        result == Err::<Picture, DecodeError>(DecodeError::Pixels) <==> safe_to_read(data@)
            && jpeg_size(data@) is Some && jpeg_pixels(data@, usize::BITS as int) is None,
{
}

/// Two readings of one file come to the same.
pub proof fn law_decode_image_again(
    data: &[u8],
    other: &[u8],
    first: Result<Picture, DecodeError>,
    second: Result<Picture, DecodeError>,
)
    requires
        data@ == other@,
        call_ensures(decode_image, (data,), first),
        call_ensures(decode_image, (other,), second),
    ensures
        match (first, second) {
            (Ok(a), Ok(b)) => a.width == b.width && a.height == b.height && a.pixels@
                == b.pixels@,
            (Err(a), Err(b)) => a == b,
            _ => false,
        },
{
}

/// A download that gives a picture ends the search, whatever the length of its file: the
/// picture is the one in the file, and the file is kept byte for byte. One that gives no
/// picture costs a download, and the next follows at once if one is left.
pub proof fn law_downloaded(search: &mut Fetch, file: Vec<u8>, action: FetchAction)
    requires
        old(search).retry > 0,
        call_ensures(Fetch::next, (search, FetchEvent::Downloaded { file }), action),
    ensures
        call_requires(Fetch::next, (search, FetchEvent::Downloaded { file })),
        is_picture(file@) ==> {
            &&& final(search).retry == old(search).retry
            &&& action matches FetchAction::Finish { picture, file: kept } && {
                &&& is_picture_of(picture, file@)
                &&& kept@ == file@
            }
        },
        !is_picture(file@) ==> {
            &&& final(search).retry + 1 == old(search).retry
            &&& old(search).retry == 1 ==> action is GiveUp
            &&& old(search).retry > 1 ==> action is Download
        },
{
}

/// A download that fails costs a download, and is followed by a wait of a second.
pub proof fn law_download_failed(search: &mut Fetch, action: FetchAction)
    requires
        old(search).retry > 0,
        call_ensures(Fetch::next, (search, FetchEvent::DownloadFailed), action),
    ensures
        call_requires(Fetch::next, (search, FetchEvent::DownloadFailed)),
        final(search).retry + 1 == old(search).retry,
        action == (FetchAction::Sleep { seconds: 1 }),
{
}

/// At the beginning and after a wait there is a download where one is left, and else the
/// search is over.
pub proof fn law_attempt(search: &mut Fetch, event: FetchEvent, action: FetchAction)
    requires
        event is Begun || event is Slept,
        call_ensures(Fetch::next, (search, event), action),
    ensures
        call_requires(Fetch::next, (search, event)),
        final(search).retry == old(search).retry,
        old(search).retry > 0 <==> action is Download,
        old(search).retry == 0 <==> action is GiveUp,
{
}

/// What a search does is a step of the searches that the other laws speak of.
pub proof fn law_next_is_a_step(search: &mut Fetch, event: FetchEvent, action: FetchAction)
    requires
        call_ensures(Fetch::next, (search, event), action),
    ensures
        is_step(*old(search), event, *final(search), action),
{
}

/// What was read of a file decides about it: a picture is shown and the file is kept byte
/// for byte, and an error costs a download.
pub proof fn law_decoded(
    search: &mut Fetch,
    file: Vec<u8>,
    decoded: Result<Picture, DecodeError>,
    action: FetchAction,
)
    requires
        old(search).retry > 0,
        call_ensures(Fetch::decoded, (search, file, decoded), action),
    ensures
        call_requires(Fetch::decoded, (search, file, decoded)),
        decoded matches Ok(found) ==> {
            &&& final(search).retry == old(search).retry
            &&& action matches FetchAction::Finish { picture, file: kept } && {
                &&& picture == found
                &&& kept@ == file@
            }
        },
        decoded is Err ==> {
            &&& final(search).retry + 1 == old(search).retry
            &&& old(search).retry == 1 ==> action is GiveUp
            &&& old(search).retry > 1 ==> action is Download
        },
{
}

/// A search begins with all its downloads.
pub proof fn law_new_search(retry: usize, search: Fetch)
    requires
        call_ensures(Fetch::new, (retry,), search),
    ensures
        search.retry == retry,
{
}

/// The picture that a search finishes with comes back: a client that starts with the file
/// that was kept has a picture of the same size with the same pixels.
pub proof fn law_picture_comes_back(
    search: &mut Fetch,
    event: FetchEvent,
    action: FetchAction,
    place: CachePath,
    client: Client,
)
    requires
        call_ensures(Fetch::next, (search, event), action),
        action is Finish,
        call_ensures(Client::new, (place, Some(action->file)), client),
    ensures
        client.source matches Some(picture) && {
            &&& picture.width == action->picture.width
            &&& picture.height == action->picture.height
            &&& picture.pixels@ == action->picture.pixels@
        },
{
}

/// A client begins with the picture in the cache, exactly where there is one, and with
/// nothing else.
pub proof fn law_new_client(place: CachePath, cached: Option<Vec<u8>>, client: Client)
    requires
        call_ensures(Client::new, (place, cached), client),
    ensures
        call_requires(Client::new, (place, cached)),
        client.cache_path == place,
        client.window is None,
        !client.has_cursor_shape_device,
        client.globals.compositor is None,
        client.globals.shm is None,
        client.globals.layer_shell_v1 is None,
        client.globals.cursor_shaper_manager is None,
        client.source is Some <==> cached is Some && is_picture(cached.unwrap()@),
        client.source matches Some(picture) ==> is_picture_of(picture, cached.unwrap()@),
{
    lemma_no_globals(client);
}

/// A client that knows no global of any interface knows none of the four.
proof fn lemma_no_globals(client: Client)
    requires
        forall|interface: crate::request::Interface| #[trigger]
            client.globals.of(interface) is None,
    ensures
        client.globals.compositor is None,
        client.globals.shm is None,
        client.globals.layer_shell_v1 is None,
        client.globals.cursor_shaper_manager is None,
{
    assert(client.globals.of(crate::request::Interface::Compositor) is None);
    assert(client.globals.of(crate::request::Interface::Shm) is None);
    assert(client.globals.of(crate::request::Interface::LayerShell) is None);
    assert(client.globals.of(crate::request::Interface::CursorShapeManager) is None);
}

/// A client begins with what was read from the cache, exactly where that is a picture.
pub proof fn law_with_cached(
    place: CachePath,
    cached: Option<Result<Picture, DecodeError>>,
    client: Client,
)
    requires
        call_ensures(Client::with_cached, (place, cached), client),
    ensures
        call_requires(Client::with_cached, (place, cached)),
        client.cache_path == place,
        client.window is None,
        !client.has_cursor_shape_device,
        client.globals.compositor is None,
        client.globals.shm is None,
        client.globals.layer_shell_v1 is None,
        client.globals.cursor_shaper_manager is None,
        client.source is Some <==> cached is Some && cached.unwrap() is Ok,
        client.source is Some ==> client.source == Some(cached.unwrap()->Ok_0),
{
    lemma_no_globals(client);
}

/// What the decoder came to is taken over as it is: the sides, and every pixel in its place.
pub proof fn law_to_picture(
    outcome: Result<Result<(u32, u32, Vec<[u8; 4]>), ImageError>, ImageError>,
    result: Result<Picture, DecodeError>,
)
    requires
        call_ensures(to_picture, (outcome,), result),
    ensures
        result is Ok <==> outcome is Ok && outcome->Ok_0 is Ok,
        outcome is Err <==> result is Err && result->Err_0 is Header,
        outcome is Ok && outcome->Ok_0 is Err <==> result is Err && result->Err_0 is Pixels,
        outcome matches Ok(Ok((width, height, pixels))) ==> result matches Ok(picture) && {
            &&& picture.width == width
            &&& picture.height == height
            &&& picture.pixels@ == pixels@
        },
{
}

} // verus!
