//! The interfaces of a key server. What a method promises is stated over the
//! model of the cluster behind the server.

use vstd::prelude::*;
use crate::document_key::{DocumentKey, EncryptedDocumentKey, EncryptedDocumentKeyShadow};
use crate::error::Error;
use crate::model::{
    document_key_generated, document_key_generated_by_dealing, ecdsa_signed, generated_by_dealing, key_generated, schnorr_signed,
    servers_changed, shadowed, stored, ClusterModel, Scheme,
};
use crate::requester::Requester;
use crate::servers_set::ServersSet;
use crate::servers_set_change::id_views;
use crate::signing::EncryptedMessageSignature;
use crate::types::{MessageHash, Public, RequestSignature, ServerKeyId};

verus! {

/// What stands behind a server: the cluster that it speaks for.
pub trait Served {
    /// The cluster behind the server.
    spec fn cluster(&self) -> ClusterModel;

    /// The server is in a state in which it can be used.
    spec fn serving(&self) -> bool;
}

/// Server key (SK) generator.
pub trait ServerKeyGenerator: Served {
    /// Generates a new server key under `key_id`, for `author`.
    /// `threshold + 1` is the number of nodes that it takes to use the key.
    /// The result is the key's public point.
    fn generate_key(&mut self, key_id: &ServerKeyId, author: &Requester, threshold: usize) -> (r:
        Result<Public, Error>)
        requires
            old(self).serving(),
        ensures
            final(self).serving(),
            old(self).cluster().generation_refusal(
                key_id@,
                author.resolved_address(key_id@),
                threshold as nat,
            ) matches Some(e) ==> r == Err::<Public, Error>(e),
            old(self).cluster().generation_refusal(
                key_id@,
                author.resolved_address(key_id@),
                threshold as nat,
            ) is None ==> r is Ok || r == Err::<Public, Error>(Error::InconsistentShare),
            r matches Ok(public) ==> key_generated(
                old(self).cluster(),
                final(self).cluster(),
                key_id@,
                author.resolved_address(key_id@)->Some_0,
                threshold as nat,
                public@,
            ),
            r matches Ok(public) ==> generated_by_dealing(
                old(self).cluster(),
                final(self).cluster(),
                key_id@,
                author.resolved_address(key_id@)->Some_0,
                threshold as nat,
                public@,
            ),
            r is Err ==> final(self).cluster() == old(self).cluster(),
    ;

    /// The public point of a server key, for the key's author.
    fn restore_key_public(&self, key_id: &ServerKeyId, author: &Requester) -> (r: Result<
        Public,
        Error,
    >)
        requires
            self.serving(),
        ensures
            r is Ok <==> self.cluster().public_of(key_id@, author.resolved_address(key_id@))
                is Ok,
            r matches Ok(public) ==> self.cluster().public_of(
                key_id@,
                author.resolved_address(key_id@),
            ) == Ok::<Seq<u8>, Error>(public@),
            r matches Err(e) ==> self.cluster().public_of(
                key_id@,
                author.resolved_address(key_id@),
            ) == Err::<Seq<u8>, Error>(e),
    ;
}

/// Document key (DK) server.
pub trait DocumentKeyServer: ServerKeyGenerator {
    /// Stores a document key that the caller made and blinded.
    /// `common_point` is `k * G` and `encrypted_document_key` is `M + k * Y`,
    /// for the document key `M`, a random scalar `k` and the server key's
    /// public point `Y`.
    fn store_document_key(
        &mut self,
        key_id: &ServerKeyId,
        author: &Requester,
        common_point: Public,
        encrypted_document_key: Public,
    ) -> (r: Result<(), Error>)
        requires
            old(self).serving(),
        ensures
            final(self).serving(),
            old(self).cluster().store_refusal(
                key_id@,
                author.resolved_address(key_id@),
            ) matches Some(e) ==> r == Err::<(), Error>(e) && final(self).cluster()
                == old(self).cluster(),
            old(self).cluster().store_refusal(key_id@, author.resolved_address(key_id@)) is None
                ==> r is Ok && final(self).cluster() == stored(
                old(self).cluster(),
                key_id@,
                DocumentKey { common_point, encrypted_point: encrypted_document_key },
            ),
    ;

    /// Generates a server key and a document key under it. The document key
    /// is made by the cluster; the result is the document key, encrypted for
    /// the author.
    fn generate_document_key(
        &mut self,
        key_id: &ServerKeyId,
        author: &Requester,
        threshold: usize,
    ) -> (r: Result<EncryptedDocumentKey, Error>)
        requires
            old(self).serving(),
        ensures
            final(self).serving(),
            old(self).cluster().generation_refusal(
                key_id@,
                author.resolved_address(key_id@),
                threshold as nat,
            ) matches Some(e) ==> r == Err::<EncryptedDocumentKey, Error>(e),
            old(self).cluster().generation_refusal(
                key_id@,
                author.resolved_address(key_id@),
                threshold as nat,
            ) is None ==> (r is Ok || r == Err::<EncryptedDocumentKey, Error>(
                Error::InconsistentShare,
            ) || r == Err::<EncryptedDocumentKey, Error>(Error::BadSignature)),
            r matches Ok(encrypted) ==> encrypted@.len() == 64 + 113 && encrypted@[0] == 4
                && document_key_generated(
                old(self).cluster(),
                final(self).cluster(),
                key_id@,
                author.resolved_address(key_id@)->Some_0,
                threshold as nat,
            ),
            r is Ok ==> document_key_generated_by_dealing(
                old(self).cluster(),
                final(self).cluster(),
                key_id@,
                author.resolved_address(key_id@)->Some_0,
                threshold as nat,
            ),
            r is Err ==> final(self).cluster() == old(self).cluster(),
    ;

    /// Restores a document key. The key is decrypted by the cluster and
    /// encrypted for the requester, who must be allowed to use the key.
    fn restore_document_key(&self, key_id: &ServerKeyId, requester: &Requester) -> (r: Result<
        EncryptedDocumentKey,
        Error,
    >)
        requires
            self.serving(),
        ensures
            self.cluster().restore_refusal(
                key_id@,
                requester.resolved_address(key_id@),
            ) matches Some(e) ==> r == Err::<EncryptedDocumentKey, Error>(e),
            self.cluster().restore_refusal(key_id@, requester.resolved_address(key_id@)) is None
                ==> {
                &&& self.cluster().document_key(key_id@) is None ==> r == Err::<
                    EncryptedDocumentKey,
                    Error,
                >(Error::InconsistentShare)
                &&& self.cluster().document_key(key_id@) is Some ==> r is Ok || r == Err::<
                    EncryptedDocumentKey,
                    Error,
                >(Error::BadSignature)
            },
            r matches Ok(encrypted) ==> encrypted@.len() == 64 + 113 && encrypted@[0] == 4,
    ;

    /// Restores a document key in shadow. To decrypt it, the requester
    /// 1) decrypts the coefficients of `decrypt_shadows` with its secret,
    /// 2) adds them up,
    /// 3) multiplies `common_point` by the sum,
    /// 4) adds the product to `decrypted_secret`.
    fn restore_document_key_shadow(&self, key_id: &ServerKeyId, requester: &Requester) -> (r:
        Result<EncryptedDocumentKeyShadow, Error>)
        requires
            self.serving(),
        ensures
            self.cluster().restore_refusal(
                key_id@,
                requester.resolved_address(key_id@),
            ) matches Some(e) ==> (r matches Err(f) && f == e),
            self.cluster().restore_refusal(key_id@, requester.resolved_address(key_id@)) is None
                ==> (r is Ok || (r matches Err(f) && (f == Error::InconsistentShare || f
                == Error::BadSignature))),
            r matches Ok(shadow) ==> {
                &&& shadow.common_point == self.cluster().keys[key_id@].document_key->Some_0.common_point
                &&& shadowed(self.cluster(), key_id@, shadow.decrypted_secret@)
                &&& shadow.decrypt_shadows@.len() == self.cluster().keys[key_id@].threshold + 1
                &&& forall|i: int|
                    0 <= i < shadow.decrypt_shadows@.len() ==> (
                    #[trigger] shadow.decrypt_shadows@[i])@.len() == 32 + 113
            },
    ;
}

/// Message signer.
pub trait MessageSigner: ServerKeyGenerator {
    /// Signs a message with a server key, by Schnorr's scheme. The result is
    /// the signature, encrypted for the requester.
    fn sign_message_schnorr(
        &self,
        key_id: &ServerKeyId,
        requester: &Requester,
        message: MessageHash,
    ) -> (r: Result<EncryptedMessageSignature, Error>)
        requires
            self.serving(),
        ensures
            self.cluster().signing_refusal(
                key_id@,
                requester.resolved_address(key_id@),
                Scheme::Schnorr,
            ) matches Some(e) ==> r == Err::<EncryptedMessageSignature, Error>(e),
            self.cluster().signing_refusal(
                key_id@,
                requester.resolved_address(key_id@),
                Scheme::Schnorr,
            ) is None ==> (r is Ok || r == Err::<EncryptedMessageSignature, Error>(
                Error::InconsistentShare,
            ) || r == Err::<EncryptedMessageSignature, Error>(Error::BadSignature)),
            r matches Ok(encrypted) ==> encrypted@.len() == 64 + 113 && encrypted@[0] == 4,
            r is Ok ==> schnorr_signed(self.cluster(), key_id@, message@),
    ;

    /// Signs a message with a server key, by ECDSA. This takes twice the
    /// key's threshold plus one nodes. `signature` is the key id, signed by
    /// the requester. The result is the signature, encrypted for the
    /// requester.
    fn sign_message_ecdsa(
        &self,
        key_id: &ServerKeyId,
        signature: &Requester,
        message: MessageHash,
    ) -> (r: Result<EncryptedMessageSignature, Error>)
        requires
            self.serving(),
        ensures
            self.cluster().signing_refusal(
                key_id@,
                signature.resolved_address(key_id@),
                Scheme::Ecdsa,
            ) matches Some(e) ==> r == Err::<EncryptedMessageSignature, Error>(e),
            self.cluster().signing_refusal(
                key_id@,
                signature.resolved_address(key_id@),
                Scheme::Ecdsa,
            ) is None ==> (r is Ok || r == Err::<EncryptedMessageSignature, Error>(
                Error::InconsistentShare,
            ) || r == Err::<EncryptedMessageSignature, Error>(Error::BadSignature)),
            r matches Ok(encrypted) ==> encrypted@.len() == 65 + 113 && encrypted@[0] == 4,
            r is Ok ==> ecdsa_signed(self.cluster(), key_id@, message@),
    ;
}

/// Administrative sessions server.
pub trait AdminSessionsServer: Served {
    /// Changes the servers set, so that the nodes of `new_servers_set` hold
    /// the shares of all keys, and the other nodes hold none. The change is
    /// authorized by the administrator's signatures over the set as it is and
    /// over the set as it is to be.
    fn change_servers_set(
        &mut self,
        old_set_signature: RequestSignature,
        new_set_signature: RequestSignature,
        new_servers_set: &ServersSet,
    ) -> (r: Result<(), Error>)
        requires
            old(self).serving(),
        ensures
            final(self).serving(),
            !old(self).cluster().change_authorized(
                old_set_signature@,
                new_set_signature@,
                new_servers_set@,
            ) ==> (r matches Err(e) && e == Error::BadSignature) && final(self).cluster()
                == old(self).cluster(),
            old(self).cluster().change_authorized(
                old_set_signature@,
                new_set_signature@,
                new_servers_set@,
            ) ==> match r {
                Ok(()) => servers_changed(
                    old(self).cluster(),
                    final(self).cluster(),
                    new_servers_set@,
                    Seq::empty(),
                ),
                Err(e) => e matches Error::PartialMigrationFailure(ids) && ids@.len() > 0
                    && servers_changed(
                    old(self).cluster(),
                    final(self).cluster(),
                    new_servers_set@,
                    id_views(ids@),
                ),
            },
    ;
}

/// Key server.
pub trait KeyServer: AdminSessionsServer + DocumentKeyServer + MessageSigner + Send + Sync {

}

} // verus!
