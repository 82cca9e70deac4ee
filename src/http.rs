use vstd::prelude::*;
use vstd::string::{StrSliceExecFns, StringExecFns, StringSliceAdditionalSpecFns};

use crate::asset::{asset_position, find_asset, Asset};
use crate::identity::Identity;
use crate::state::State;
use crate::utils::{asset_id_extractor, path_asset_id};

verus! {

/// Body of the answer for an unknown asset.
pub const NOT_FOUND_BODY: &'static str = "Asset Not Found";

/// Body of the answer for a path that ends in no asset id.
pub const BAD_PATH_BODY: &'static str = "Invalid Asset Id";

/// Method that serves the remaining pieces of a streamed asset.
pub const CALLBACK_METHOD: &'static str = "http_request_streaming_callback";

/// Encoding named in continuation tokens.
pub const CONTENT_ENCODING: &'static str = "gzip";

/// A header name and value.
pub struct HeaderField(pub String, pub String);

pub struct HttpRequest {
    pub method: String,
    pub url: String,
    pub headers: Vec<HeaderField>,
    pub body: Vec<u8>,
}

pub struct HttpResponse {
    pub status_code: u16,
    pub headers: Vec<HeaderField>,
    pub body: Vec<u8>,
    pub streaming_strategy: Option<StreamingStrategy>,
}

/// Where a stream stands: the piece just served and the number of pieces.
pub struct CreateStrategyArgs {
    pub asset_id: u128,
    pub chunk_index: u32,
    pub chunk_size: u32,
}

/// A continuation token: the next piece to serve of a streamed asset.
pub struct StreamingCallbackToken {
    pub asset_id: u128,
    pub chunk_index: u32,
    pub chunk_size: u32,
    pub content_encoding: String,
}

/// A method of a canister, to be called with a continuation token.
pub struct CallbackFunc {
    pub canister: Identity,
    pub method: String,
}

pub enum StreamingStrategy {
    Callback { token: StreamingCallbackToken, callback: CallbackFunc },
}

pub struct StreamingCallbackHttpResponse {
    pub body: Vec<u8>,
    pub token: Option<StreamingCallbackToken>,
}

/// `t` is the token that follows piece `index` of `size` pieces of asset `id`:
/// none once `index + 1` reaches `size`, else one for `index + 1`.
pub open spec fn token_follows(t: Option<StreamingCallbackToken>, id: u128, index: u32, size: u32) -> bool {
    if index as int + 1 >= size as int {
        t is None
    } else {
        t matches Some(tok) && tok.asset_id == id && tok.chunk_index == index + 1 && tok.chunk_size
            == size && tok.content_encoding@ == CONTENT_ENCODING@
    }
}

/// `s` is a callback strategy that carries the token following piece `index`
/// of `size` pieces, pointing back at the canister `canister`; none when the
/// stream is exhausted.
pub open spec fn strategy_follows(
    s: Option<StreamingStrategy>,
    canister: Seq<u8>,
    id: u128,
    index: u32,
    size: u32,
) -> bool {
    if index as int + 1 >= size as int {
        s is None
    } else {
        s matches Some(StreamingStrategy::Callback { token, callback }) && token_follows(
            Some(token),
            id,
            index,
            size,
        ) && callback.canister@ == canister && callback.method@ == CALLBACK_METHOD@
    }
}

/// The token for the piece after `arg.chunk_index`, if there is one.
pub fn create_token(arg: CreateStrategyArgs) -> (r: Option<StreamingCallbackToken>)
    ensures
        token_follows(r, arg.asset_id, arg.chunk_index, arg.chunk_size),
{
    if arg.chunk_index as u64 + 1 >= arg.chunk_size as u64 {
        return None;
    }
    Some(
        StreamingCallbackToken {
            asset_id: arg.asset_id,
            chunk_index: arg.chunk_index + 1,
            content_encoding: String::from_str(CONTENT_ENCODING),
            chunk_size: arg.chunk_size,
        },
    )
}

/// The streaming strategy for the piece after `arg.chunk_index`, if any.
pub fn create_strategy(arg: CreateStrategyArgs, canister: &Identity) -> (r: Option<StreamingStrategy>)
    ensures
        strategy_follows(r, canister@, arg.asset_id, arg.chunk_index, arg.chunk_size),
{
    match create_token(arg) {
        None => None,
        Some(token) => Some(
            StreamingStrategy::Callback {
                token,
                callback: CallbackFunc {
                    canister: canister.duplicate(),
                    method: String::from_str(CALLBACK_METHOD),
                },
            },
        ),
    }
}

fn header(name: &str, value: String) -> (r: HeaderField)
    ensures
        r.0@ == name@,
        r.1@ == value@,
{
    HeaderField(String::from_str(name), value)
}

/// The answer for a known asset: its first piece, its headers, and a
/// continuation when it has more pieces.
pub open spec fn serves_asset(r: HttpResponse, a: Asset, canister: Seq<u8>) -> bool {
    &&& r.status_code == 200
    &&& r.body@ == a.chunks@[0]@
    &&& r.headers@.len() == 4
    &&& r.headers@[0].0@ == "Content-Type"@ && r.headers@[0].1@ == a.file_type@
    &&& r.headers@[1].0@ == "accept-ranges"@ && r.headers@[1].1@ == "bytes"@
    &&& r.headers@[2].0@ == "Content-Disposition"@ && r.headers@[2].1@ == "attachment; filename="@
        + a.file_name@
    &&& r.headers@[3].0@ == "cache-control"@ && r.headers@[3].1@ == "private, max-age=0"@
    &&& strategy_follows(r.streaming_strategy, canister, a.asset_id, 0, a.chunks@.len() as u32)
}

/// A fixed answer with no headers and no continuation.
pub open spec fn plain_answer(r: HttpResponse, status: u16, body: &str) -> bool {
    &&& r.status_code == status
    &&& r.body@ == body.spec_bytes()
    &&& r.headers@.len() == 0
    &&& r.streaming_strategy is None
}

fn plain_response(status: u16, body: &str) -> (r: HttpResponse)
    ensures
        plain_answer(r, status, body),
{
    HttpResponse {
        status_code: status,
        headers: Vec::new(),
        body: body.as_bytes_vec(),
        streaming_strategy: None,
    }
}

/// Serves the asset named by the last segment of the request path: its first
/// piece, with a continuation token when it has more; 404 when no asset has
/// that id; 400 when the path ends in no id.
pub fn http_request(state: &State, request: &HttpRequest) -> (r: HttpResponse)
    requires
        state.wf(),
    ensures
        match path_asset_id(request.url@) {
            None => plain_answer(r, 400, BAD_PATH_BODY),
            Some(id) => match find_asset(state.asset_list@, id) {
                None => plain_answer(r, 404, NOT_FOUND_BODY),
                Some(a) => serves_asset(r, a, state.canister_id@),
            },
        },
{
    let asset_id = match asset_id_extractor(request.url.as_str()) {
        None => {
            return plain_response(400, BAD_PATH_BODY);
        },
        Some(id) => id,
    };
    match asset_position(&state.asset_list, asset_id) {
        None => plain_response(404, NOT_FOUND_BODY),
        Some(p) => {
            let asset = &state.asset_list[p];
            let body = asset.chunks[0].clone();
            assert(body@ =~= asset.chunks@[0]@);
            let mut disposition = String::from_str("attachment; filename=");
            disposition.append(asset.file_name.as_str());
            let mut headers: Vec<HeaderField> = Vec::new();
            headers.push(header("Content-Type", asset.file_type.clone()));
            headers.push(header("accept-ranges", String::from_str("bytes")));
            headers.push(header("Content-Disposition", disposition));
            headers.push(header("cache-control", String::from_str("private, max-age=0")));
            let strategy = create_strategy(
                CreateStrategyArgs {
                    asset_id,
                    chunk_index: 0,
                    chunk_size: asset.chunks.len() as u32,
                },
                &state.canister_id,
            );
            HttpResponse { status_code: 200, headers, body, streaming_strategy: strategy }
        },
    }
}

/// Serves the piece that a continuation token names, with the token for the
/// piece after it. Tokens come only from this shard, so an unknown asset or a
/// piece out of range gives `None`.
pub fn http_request_streaming_callback(state: &State, token_arg: &StreamingCallbackToken) -> (r:
    Option<StreamingCallbackHttpResponse>)
    ensures
        match find_asset(state.asset_list@, token_arg.asset_id) {
            Some(a) if (token_arg.chunk_index as int) < a.chunks@.len() => r matches Some(resp)
                && resp.body@ == a.chunks@[token_arg.chunk_index as int]@ && token_follows(
                resp.token,
                token_arg.asset_id,
                token_arg.chunk_index,
                token_arg.chunk_size,
            ),
            _ => r is None,
        },
{
    match asset_position(&state.asset_list, token_arg.asset_id) {
        None => None,
        Some(p) => {
            let asset = &state.asset_list[p];
            let index = token_arg.chunk_index as usize;
            if index >= asset.chunks.len() {
                return None;
            }
            let body = asset.chunks[index].clone();
            assert(body@ =~= asset.chunks@[index as int]@);
            let token = create_token(
                CreateStrategyArgs {
                    asset_id: token_arg.asset_id,
                    chunk_index: token_arg.chunk_index,
                    chunk_size: token_arg.chunk_size,
                },
            );
            Some(StreamingCallbackHttpResponse { body, token })
        },
    }
}

} // verus!
