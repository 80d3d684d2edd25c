use battleserver::center::{BattleClient, GameCenterMgr, RouteError};

#[test]
fn gate_routes_are_bound_and_forgotten() {
    let mut gm = GameCenterMgr::new();
    gm.add_gate_client(10);
    gm.bound_user_w_gate(5, 10);
    assert_eq!(gm.get_gate_client(5), Ok(10));
    gm.bound_user_w_gate(5, 11);
    assert_eq!(gm.get_gate_client(5), Err(RouteError::NoServer(11)));
    gm.bound_user_w_gate(0, 10);
    assert_eq!(gm.get_gate_client(0), Err(RouteError::NoRoute(0)));
    gm.handler(6, Some(10));
    assert_eq!(gm.get_gate_client(6), Ok(10));
    gm.handler(7, None);
    assert_eq!(gm.get_gate_client(7), Err(RouteError::NoRoute(7)));
    gm.user_leave(1, 6, 2);
    assert_eq!(gm.get_gate_client(6), Ok(10));
    gm.user_leave(2, 6, 2);
    assert_eq!(gm.get_gate_client(6), Err(RouteError::NoRoute(6)));
}

#[test]
fn battles_go_to_the_least_loaded_server() {
    let mut gm = GameCenterMgr::new();
    assert_eq!(gm.slb(&vec![1, 2]), None);
    gm.add_battle_client(10);
    gm.add_battle_client(20);
    gm.add_battle_client(30);
    assert_eq!(gm.slb(&vec![1, 2]), Some(10));
    assert_eq!(gm.slb(&vec![3]), Some(20));
    assert_eq!(gm.slb(&vec![4]), Some(30));
    assert_eq!(gm.slb(&vec![5]), Some(10));
    assert_eq!(gm.get_battle_client(1), Ok(BattleClient { token: 10, room_num: 2 }));
    assert_eq!(gm.get_battle_client(3), Ok(BattleClient { token: 20, room_num: 1 }));
    assert_eq!(gm.get_battle_client(9), Err(RouteError::NoRoute(9)));
    gm.slb_back(7, Some(10), 7);
    assert_eq!(gm.battle_clients[0].room_num, 1);
    gm.slb_back(8, Some(10), 7);
    assert_eq!(gm.battle_clients[0].room_num, 1);
    gm.slb_back(7, Some(99), 7);
    gm.slb_back(7, None, 7);
    gm.slb_back(7, Some(20), 7);
    gm.slb_back(7, Some(20), 7);
    assert_eq!(gm.battle_clients[1].room_num, 0);
    assert_eq!(gm.slb(&vec![6]), Some(20));
    gm.user_leave(3, 1, 3);
    assert_eq!(gm.get_battle_client(1), Err(RouteError::NoRoute(1)));
}
