//! A small chat service: the frame codec, the typed requests and responses,
//! the connection buffer, the admission worker's decisions and the server's
//! state machine, together with the parsing done by the client programs.

use vstd::prelude::*;

pub mod client;
pub mod connection;
pub mod package;
pub mod requests;
pub mod response;
pub mod server;
pub mod text;

verus! {

/// TCP port on which the chat server listens.
pub const SERVER_PORT: u16 = 6447;

/// `<[String; N]>::try_from(Vec<String>)` hands the vector's contents over as
/// an array exactly when the vector holds `N` strings.
#[verifier::external_body]
fn vec_into_array<const N: usize>(vec: Vec<String>) -> (r: Option<[String; N]>)
    ensures
        r is Some <==> vec@.len() == N,
        r matches Some(a) ==> a@ == vec@,
{
    <[String; N]>::try_from(vec).ok()
}

/// Moves the first `N` strings out of a vector.
///
/// Gives `None` if the vector holds fewer than `N` strings; what follows the
/// first `N` is dropped.
pub fn move_vec<const N: usize>(vec: Vec<String>) -> (r: Option<[String; N]>)
    ensures
        r is Some <==> vec@.len() >= N,
        r matches Some(a) ==> a@ == vec@.take(N as int),
{
    let mut vec = vec;
    vec.truncate(N);
    vec_into_array(vec)
}

} // verus!
