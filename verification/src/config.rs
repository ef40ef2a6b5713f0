//! Server settings, and registrations collected apart from an application.

use vstd::prelude::*;
use vstd::string::StringSliceAdditionalSpecFns;
use crate::bytes::copy_bytes;
use crate::data::DataId;
use crate::pattern::{parse_pattern, ResourceDef, ResourceDefView};
use crate::rmap::definitions_view;
use crate::router::{resources_view, Resource, ResourceView, Route, RouteView, TypeKey};

verus! {

/// The settings that the server hands to every service it builds.
#[derive(Clone, Debug, PartialEq, Eq)]
pub struct AppConfig {
    pub secure: bool,
    pub host: Vec<u8>,
}

/// What an [`AppConfig`] stands for.
pub struct AppConfigView {
    pub secure: bool,
    pub host: Seq<u8>,
}

impl View for AppConfig {
    type V = AppConfigView;

    open spec fn view(&self) -> AppConfigView {
        AppConfigView { secure: self.secure, host: self.host@ }
    }
}

/// The settings of a server that nobody configured.
pub open spec fn default_config() -> AppConfigView {
    AppConfigView { secure: false, host: "localhost:8080".spec_bytes() }
}

impl AppConfig {
    /// Settings for a server that is reached as `host`.
    pub fn new(secure: bool, host: &str) -> (config: AppConfig)
        ensures
            config@ == (AppConfigView { secure, host: host.spec_bytes() }),
    {
        AppConfig { secure, host: copy_bytes(host.as_bytes()) }
    }

    /// A fresh copy of the settings.
    pub fn duplicate(&self) -> (config: AppConfig)
        ensures
            config@ == self@,
    {
        AppConfig { secure: self.secure, host: copy_bytes(self.host.as_slice()) }
    }
}

impl Default for AppConfig {
    fn default() -> (config: AppConfig)
        ensures
            config@ == default_config(),
    {
        AppConfig::new(false, "localhost:8080")
    }
}

/// Registrations collected apart from an application, to be added to one
/// with [`App::configure`].
pub struct ServiceConfig {
    pub services: Vec<Resource>,
    pub data: Vec<(TypeKey, DataId)>,
    pub external: Vec<ResourceDef>,
}

/// What a [`ServiceConfig`] stands for.
pub struct ServiceConfigView {
    pub services: Seq<ResourceView>,
    pub data: Seq<(TypeKey, DataId)>,
    pub external: Seq<ResourceDefView>,
}

impl View for ServiceConfig {
    type V = ServiceConfigView;

    open spec fn view(&self) -> ServiceConfigView {
        ServiceConfigView {
            services: resources_view(self.services@),
            data: self.data@,
            external: definitions_view(self.external@),
        }
    }
}

/// The resource that [`App::route`] registers for a route: the route's
/// guards gate the resource, and the route itself is left without any.
pub open spec fn route_resource(path: Seq<u8>, route: RouteView) -> ResourceView {
    ResourceView {
        name: Seq::empty(),
        segments: parse_pattern(path),
        guards: route.guards,
        routes: seq![RouteView { guards: Seq::empty(), ..route }],
        default: None,
    }
}

/// The resource for `route` at `path`.
pub fn resource_for(path: &str, route: Route) -> (resource: Resource)
    ensures
        resource@ == route_resource(path.spec_bytes(), route@),
{
    let ghost given = route@;
    let mut route = route;
    let guards = route.take_guards();
    let resource = Resource::new(path).add_guards(guards).route(route);
    assert(resource@.guards =~= given.guards);
    assert(resource@.routes =~= seq![RouteView { guards: Seq::empty(), ..given }]);
    resource
}

/// The definition that [`App::external_resource`] registers.
pub open spec fn external_definition(name: Seq<u8>, url: Seq<u8>) -> ResourceDefView {
    ResourceDefView { name, segments: parse_pattern(url) }
}

impl ServiceConfig {
    /// No registrations.
    pub fn new() -> (config: ServiceConfig)
        ensures
            config@ == (ServiceConfigView {
                services: Seq::empty(),
                data: Seq::empty(),
                external: Seq::empty(),
            }),
    {
        let config = ServiceConfig {
            services: Vec::new(),
            data: Vec::new(),
            external: Vec::new(),
        };
        assert(resources_view(config.services@) =~= Seq::empty());
        assert(definitions_view(config.external@) =~= Seq::empty());
        config
    }

    /// Registers application data of type `key`.
    pub fn data(&mut self, key: TypeKey, value: DataId)
        ensures
            final(self)@ == (ServiceConfigView {
                data: old(self)@.data.push((key, value)),
                ..old(self)@
            }),
    {
        self.data.push((key, value));
    }

    /// Registers a route for `path`.
    pub fn route(&mut self, path: &str, route: Route)
        ensures
            final(self)@ == (ServiceConfigView {
                services: old(self)@.services.push(route_resource(path.spec_bytes(), route@)),
                ..old(self)@
            }),
    {
        self.service(resource_for(path, route));
    }

    /// Registers a resource.
    pub fn service(&mut self, resource: Resource)
        ensures
            final(self)@ == (ServiceConfigView {
                services: old(self)@.services.push(resource@),
                ..old(self)@
            }),
    {
        self.services.push(resource);
        assert(resources_view(self.services@) =~= resources_view(old(self).services@).push(
            resource@,
        ));
    }

    /// Registers an external resource.
    pub fn external_resource(&mut self, name: &str, url: &str)
        ensures
            final(self)@ == (ServiceConfigView {
                external: old(self)@.external.push(
                    external_definition(name.spec_bytes(), url.spec_bytes()),
                ),
                ..old(self)@
            }),
    {
        let definition = ResourceDef::new(url).named(name);
        self.external.push(definition);
        assert(definitions_view(self.external@) =~= definitions_view(old(self).external@).push(
            definition@,
        ));
    }
}

} // verus!
